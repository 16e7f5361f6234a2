//! A content hash of the files of a mod directory.
//!
//! The files of a directory are put in the order of their paths and written
//! into one message, each file as its path relative to the directory, a zero
//! byte, the length of its contents as eight bytes with the least
//! significant first, and the contents. The hash of the directory is the
//! SHA-256 digest of that message, in lower-case hexadecimal digits. Reading
//! the directory is left to the caller.
//!
//! Paths are ordered name by name: the path whose first differing name comes
//! first in the order of bytes is the earlier one, and a path comes before
//! every longer path that starts with it.

use vstd::prelude::*;
use vstd::seq_lib::{
    to_multiset_build, to_multiset_contains, to_multiset_insert, to_multiset_len,
    to_multiset_remove,
};
use sha2::Digest;

verus! {

/// One file of a directory.
#[derive(Debug, Clone)]
pub struct DirFile {
    /// The names along the path from the directory to the file, by which
    /// files are ordered.
    pub components: Vec<Vec<u8>>,
    /// The path of the file relative to the directory, as text in UTF-8.
    pub rel_path: Vec<u8>,
    /// What the file holds.
    pub contents: Vec<u8>,
}

/// How one value stands to another in an order.
#[derive(Debug, Clone, Copy, PartialEq, Eq, Structural)]
pub enum Rank {
    Before,
    Same,
    After,
}

/// The SHA-256 digest of a message, as `sha2::Sha256` computes it.
pub uninterp spec fn sha256(message: Seq<u8>) -> Seq<u8>;

/// Calls `Sha256::digest` of the crate sha2, which hashes the whole of
/// `message` and yields the digest, 32 bytes long.
#[verifier::external_body]
fn sha256_digest(message: &Vec<u8>) -> (digest: Vec<u8>)
    ensures
        digest@ == sha256(message@),
        digest@.len() == 32,
{
    sha2::Sha256::digest(message.as_slice()).to_vec()
}

/// `String::push` appends one character.
pub assume_specification[ String::push ](s: &mut String, ch: char)
    ensures
        final(s)@ == old(s)@.push(ch),
;

/// The `width` least significant bytes of `v`, the least significant first.
pub open spec fn le_bytes(v: nat, width: nat) -> Seq<u8>
    decreases width,
{
    if width == 0 {
        Seq::empty()
    } else {
        seq![(v % 256) as u8] + le_bytes(v / 256, (width - 1) as nat)
    }
}

/// What a file contributes to the message.
pub open spec fn framed(file: DirFile) -> Seq<u8> {
    file.rel_path@ + seq![0u8] + le_bytes(file.contents@.len(), 8) + file.contents@
}

/// The message of a directory: its files, framed, one after the other.
pub open spec fn message(files: Seq<DirFile>) -> Seq<u8>
    decreases files.len(),
{
    if files.len() == 0 {
        Seq::empty()
    } else {
        message(files.drop_last()) + framed(files.last())
    }
}

/// How the name `a` stands to the name `b`: by the first byte in which they
/// differ, and a name stands before every longer name that starts with it.
pub open spec fn rank_names(a: Seq<u8>, b: Seq<u8>) -> Rank
    decreases a.len(),
{
    if a.len() == 0 {
        if b.len() == 0 {
            Rank::Same
        } else {
            Rank::Before
        }
    } else if b.len() == 0 {
        Rank::After
    } else if a[0] < b[0] {
        Rank::Before
    } else if a[0] > b[0] {
        Rank::After
    } else {
        rank_names(a.skip(1), b.skip(1))
    }
}

/// How the path `a` stands to the path `b`: by the first name in which they
/// differ, and a path stands before every longer path that starts with it.
pub open spec fn rank_paths(a: Seq<Seq<u8>>, b: Seq<Seq<u8>>) -> Rank
    decreases a.len(),
{
    if a.len() == 0 {
        if b.len() == 0 {
            Rank::Same
        } else {
            Rank::Before
        }
    } else if b.len() == 0 {
        Rank::After
    } else {
        match rank_names(a[0], b[0]) {
            Rank::Same => rank_paths(a.skip(1), b.skip(1)),
            rank => rank,
        }
    }
}

/// The path of a file as a sequence of names.
pub open spec fn path_of(file: DirFile) -> Seq<Seq<u8>> {
    file.components@.map_values(|name: Vec<u8>| name@)
}

/// Whether the file `a` is to be hashed before the file `b`.
pub open spec fn goes_before(a: DirFile, b: DirFile) -> bool {
    rank_paths(path_of(a), path_of(b)) == Rank::Before
}

/// The files `sorted` with `file` put in: before the files at the end that
/// it goes before, and behind all others.
pub open spec fn placed(sorted: Seq<DirFile>, file: DirFile) -> Seq<DirFile>
    decreases sorted.len(),
{
    if sorted.len() == 0 {
        seq![file]
    } else if goes_before(file, sorted.last()) {
        placed(sorted.drop_last(), file).push(sorted.last())
    } else {
        sorted.push(file)
    }
}

/// The files in the order in which they are hashed: each file is put in
/// its place among those before it. Files with the same path keep the order
/// in which they were given.
pub open spec fn ordered(files: Seq<DirFile>) -> Seq<DirFile>
    decreases files.len(),
{
    if files.len() == 0 {
        files
    } else {
        placed(ordered(files.drop_last()), files.last())
    }
}

/// The lower-case hexadecimal digit of a number below 16.
pub open spec fn hex_digit(n: u8) -> char {
    if n < 10 {
        ((0x30 + n) as u8) as char
    } else {
        ((0x61 + n - 10) as u8) as char
    }
}

/// Two lower-case hexadecimal digits for each byte, the high one first.
pub open spec fn hex_lower(bytes: Seq<u8>) -> Seq<char> {
    Seq::new(
        2 * bytes.len(),
        |i: int|
            if i % 2 == 0 {
                hex_digit(bytes[i / 2] / 16)
            } else {
                hex_digit(bytes[i / 2] % 16)
            },
    )
}

/// The hash of a directory with the given files.
pub open spec fn dir_hash(files: Seq<DirFile>) -> Seq<char> {
    hex_lower(sha256(message(ordered(files))))
}

/// Appends the eight least significant bytes of `v` to `out`.
fn push_le_bytes(out: &mut Vec<u8>, v: u64)
    ensures
        final(out)@ == old(out)@ + le_bytes(v as nat, 8),
{
    let mut rest: u64 = v;
    let mut k: usize = 0;
    assert(out@ + Seq::<u8>::empty() =~= out@);
    while k < 8
        invariant
            k <= 8,
            out@ + le_bytes(rest as nat, (8 - k) as nat) == old(out)@ + le_bytes(v as nat, 8),
        decreases 8 - k,
    {
        let low: u8 = (rest % 256) as u8;
        proof {
            let tail = le_bytes((rest / 256) as nat, (8 - k - 1) as nat);
            assert(le_bytes(rest as nat, (8 - k) as nat) == seq![low] + tail);
            assert(out@.push(low) + tail =~= out@ + (seq![low] + tail));
        }
        out.push(low);
        rest = rest / 256;
        k += 1;
    }
    assert(out@ + Seq::<u8>::empty() =~= out@);
}

/// Appends a copy of `bytes` to `out`.
fn push_bytes(out: &mut Vec<u8>, bytes: &Vec<u8>)
    ensures
        final(out)@ == old(out)@ + bytes@,
{
    let mut i: usize = 0;
    while i < bytes.len()
        invariant
            i <= bytes@.len(),
            out@ =~= old(out)@ + bytes@.take(i as int),
        decreases bytes@.len() - i,
    {
        out.push(bytes[i]);
        i += 1;
    }
    assert(bytes@.take(i as int) =~= bytes@);
}

/// Writes the message of a directory.
pub fn dir_message(files: &Vec<DirFile>) -> (out: Vec<u8>)
    ensures
        out@ == message(files@),
{
    let mut out: Vec<u8> = Vec::new();
    let mut i: usize = 0;
    assert(files@.take(0) =~= Seq::empty());
    while i < files.len()
        invariant
            i <= files@.len(),
            out@ == message(files@.take(i as int)),
        decreases files@.len() - i,
    {
        proof {
            let upto = files@.take(i as int + 1);
            assert(upto.drop_last() =~= files@.take(i as int));
            assert(upto.last() == files@[i as int]);
        }
        let file = &files[i];
        push_bytes(&mut out, &file.rel_path);
        out.push(0u8);
        push_le_bytes(&mut out, file.contents.len() as u64);
        push_bytes(&mut out, &file.contents);
        assert(out@ =~= message(files@.take(i as int)) + framed(files@[i as int]));
        i += 1;
    }
    assert(files@.take(i as int) =~= files@);
    out
}

/// Computes the digit of a number below 16.
fn hex_digit_of(n: u8) -> (c: char)
    requires
        n < 16,
    ensures
        c == hex_digit(n),
{
    if n < 10 {
        (0x30 + n) as char
    } else {
        (0x61 + n - 10) as char
    }
}

/// Writes bytes as lower-case hexadecimal digits.
pub fn to_hex(bytes: &Vec<u8>) -> (text: String)
    ensures
        text@ == hex_lower(bytes@),
{
    let mut text = String::new();
    let mut i: usize = 0;
    while i < bytes.len()
        invariant
            i <= bytes@.len(),
            text@ =~= hex_lower(bytes@.take(i as int)),
        decreases bytes@.len() - i,
    {
        let b = bytes[i];
        text.push(hex_digit_of(b / 16));
        text.push(hex_digit_of(b % 16));
        i += 1;
    }
    assert(bytes@.take(i as int) =~= bytes@);
    text
}

/// Tells how one name stands to another.
pub fn rank_of_names(a: &Vec<u8>, b: &Vec<u8>) -> (rank: Rank)
    ensures
        rank == rank_names(a@, b@),
{
    let mut i: usize = 0;
    assert(a@.skip(0) =~= a@ && b@.skip(0) =~= b@);
    loop
        invariant
            i <= a@.len(),
            i <= b@.len(),
            rank_names(a@, b@) == rank_names(a@.skip(i as int), b@.skip(i as int)),
        decreases a@.len() - i,
    {
        if i >= a.len() {
            return if i >= b.len() {
                Rank::Same
            } else {
                Rank::Before
            };
        }
        if i >= b.len() {
            return Rank::After;
        }
        if a[i] < b[i] {
            return Rank::Before;
        }
        if a[i] > b[i] {
            return Rank::After;
        }
        assert(a@.skip(i as int).skip(1) =~= a@.skip(i as int + 1));
        assert(b@.skip(i as int).skip(1) =~= b@.skip(i as int + 1));
        i += 1;
    }
}

/// Tells how the path of one file stands to the path of another.
pub fn rank_of_paths(a: &DirFile, b: &DirFile) -> (rank: Rank)
    ensures
        rank == rank_paths(path_of(*a), path_of(*b)),
{
    let ghost pa = path_of(*a);
    let ghost pb = path_of(*b);
    let mut i: usize = 0;
    assert(pa.skip(0) =~= pa && pb.skip(0) =~= pb);
    loop
        invariant
            pa == path_of(*a),
            pb == path_of(*b),
            i <= pa.len(),
            i <= pb.len(),
            rank_paths(pa, pb) == rank_paths(pa.skip(i as int), pb.skip(i as int)),
        decreases pa.len() - i,
    {
        if i >= a.components.len() {
            return if i >= b.components.len() {
                Rank::Same
            } else {
                Rank::Before
            };
        }
        if i >= b.components.len() {
            return Rank::After;
        }
        let rank = rank_of_names(&a.components[i], &b.components[i]);
        match rank {
            Rank::Same => {},
            _ => {
                return rank;
            },
        }
        assert(pa.skip(i as int).skip(1) =~= pa.skip(i as int + 1));
        assert(pb.skip(i as int).skip(1) =~= pb.skip(i as int + 1));
        i += 1;
    }
}

/// A file is placed at the place behind which all files go after it and
/// before which the next file does not.
proof fn lemma_placed_at(sorted: Seq<DirFile>, file: DirFile, j: int)
    requires
        0 <= j <= sorted.len(),
        forall|i: int| j <= i < sorted.len() ==> goes_before(file, #[trigger] sorted[i]),
        j > 0 ==> !goes_before(file, sorted[j - 1]),
    ensures
        placed(sorted, file) == sorted.insert(j, file),
    decreases sorted.len(),
{
    if sorted.len() == 0 {
        assert(sorted.insert(j, file) =~= seq![file]);
    } else if j == sorted.len() {
        assert(sorted.insert(j, file) =~= sorted.push(file));
    } else {
        assert(goes_before(file, sorted[sorted.len() - 1]));
        lemma_placed_at(sorted.drop_last(), file, j);
        assert(sorted.drop_last().insert(j, file).push(sorted.last()) =~= sorted.insert(j, file));
    }
}

/// Puts the files in the order in which they are hashed.
pub fn sort_files(files: Vec<DirFile>) -> (sorted: Vec<DirFile>)
    ensures
        sorted@ == ordered(files@),
{
    let ghost given = files@;
    let mut rest = files;
    let mut sorted: Vec<DirFile> = Vec::new();
    let ghost mut taken: int = 0;
    assert(given.take(0) =~= Seq::empty());
    assert(given.skip(0) =~= given);
    while rest.len() > 0
        invariant
            0 <= taken <= given.len(),
            rest@ == given.skip(taken),
            sorted@ == ordered(given.take(taken)),
        decreases rest@.len(),
    {
        let file = rest.remove(0);
        proof {
            let upto = given.take(taken + 1);
            assert(upto.drop_last() =~= given.take(taken));
            assert(upto.last() == file);
            assert(rest@ =~= given.skip(taken + 1));
        }
        let mut j: usize = sorted.len();
        while j > 0 && matches!(rank_of_paths(&file, &sorted[j - 1]), Rank::Before)
            invariant
                j <= sorted@.len(),
                forall|i: int| j <= i < sorted@.len() ==> goes_before(file, #[trigger] sorted@[i]),
            decreases j,
        {
            j -= 1;
        }
        proof {
            lemma_placed_at(sorted@, file, j as int);
            taken = taken + 1;
        }
        sorted.insert(j, file);
    }
    assert(given.take(taken) =~= given);
    sorted
}

/// The content hash of a directory with the given files, in whatever order
/// they were found.
pub fn hash_dir_sha256(files: Vec<DirFile>) -> (hash: String)
    ensures
        hash@ == dir_hash(files@),
        hash@.len() == 64,
{
    let sorted = sort_files(files);
    let message = dir_message(&sorted);
    let digest = sha256_digest(&message);
    to_hex(&digest)
}

impl Rank {
    /// The rank seen from the other side.
    pub open spec fn mirrored(self) -> Rank {
        match self {
            Rank::Before => Rank::After,
            Rank::Same => Rank::Same,
            Rank::After => Rank::Before,
        }
    }
}

/// Names rank the same way from both sides, and only equal names rank the
/// same.
pub proof fn lemma_rank_names_mirrored(a: Seq<u8>, b: Seq<u8>)
    ensures
        rank_names(b, a) == rank_names(a, b).mirrored(),
        rank_names(a, b) == Rank::Same <==> a == b,
    decreases a.len(),
{
    if a.len() > 0 && b.len() > 0 {
        lemma_rank_names_mirrored(a.skip(1), b.skip(1));
        if a[0] == b[0] && a.skip(1) == b.skip(1) {
            assert(a =~= seq![a[0]] + a.skip(1));
            assert(b =~= seq![b[0]] + b.skip(1));
        }
    } else if a.len() == 0 && b.len() == 0 {
        assert(a =~= b);
    }
}

/// The order of names is transitive.
pub proof fn lemma_rank_names_chain(a: Seq<u8>, b: Seq<u8>, c: Seq<u8>)
    requires
        rank_names(a, b) != Rank::After,
        rank_names(b, c) != Rank::After,
    ensures
        rank_names(a, c) != Rank::After,
        rank_names(a, b) == Rank::Before || rank_names(b, c) == Rank::Before ==> rank_names(a, c)
            == Rank::Before,
    decreases a.len(),
{
    if a.len() > 0 && b.len() > 0 && c.len() > 0 {
        if a[0] == b[0] && b[0] == c[0] {
            lemma_rank_names_chain(a.skip(1), b.skip(1), c.skip(1));
        }
    }
}

/// Paths rank the same way from both sides, and only equal paths rank the
/// same.
pub proof fn lemma_rank_paths_mirrored(a: Seq<Seq<u8>>, b: Seq<Seq<u8>>)
    ensures
        rank_paths(b, a) == rank_paths(a, b).mirrored(),
        rank_paths(a, b) == Rank::Same <==> a == b,
    decreases a.len(),
{
    if a.len() > 0 && b.len() > 0 {
        lemma_rank_names_mirrored(a[0], b[0]);
        lemma_rank_paths_mirrored(a.skip(1), b.skip(1));
        if a[0] == b[0] && a.skip(1) == b.skip(1) {
            assert(a =~= seq![a[0]] + a.skip(1));
            assert(b =~= seq![b[0]] + b.skip(1));
        }
    } else if a.len() == 0 && b.len() == 0 {
        assert(a =~= b);
    }
}

/// The order of paths is transitive.
pub proof fn lemma_rank_paths_chain(a: Seq<Seq<u8>>, b: Seq<Seq<u8>>, c: Seq<Seq<u8>>)
    requires
        rank_paths(a, b) != Rank::After,
        rank_paths(b, c) != Rank::After,
    ensures
        rank_paths(a, c) != Rank::After,
        rank_paths(a, b) == Rank::Before || rank_paths(b, c) == Rank::Before ==> rank_paths(a, c)
            == Rank::Before,
    decreases a.len(),
{
    if a.len() > 0 && b.len() > 0 && c.len() > 0 {
        lemma_rank_names_mirrored(a[0], b[0]);
        lemma_rank_names_mirrored(b[0], c[0]);
        lemma_rank_names_mirrored(a[0], c[0]);
        lemma_rank_names_chain(a[0], b[0], c[0]);
        if rank_names(a[0], b[0]) == Rank::Same && rank_names(b[0], c[0]) == Rank::Same {
            lemma_rank_paths_chain(a.skip(1), b.skip(1), c.skip(1));
        }
    }
}

/// Whether no file of a sequence goes before a file that stands before it.
pub open spec fn in_order(files: Seq<DirFile>) -> bool {
    forall|i: int, j: int|
        0 <= i < j < files.len() ==> !goes_before(#[trigger] files[j], #[trigger] files[i])
}

/// Putting a file in its place is putting it in at one place, behind which
/// all files go after it and before which the next file does not.
pub proof fn lemma_placed_is_insert(sorted: Seq<DirFile>, file: DirFile) -> (j: int)
    ensures
        0 <= j <= sorted.len(),
        placed(sorted, file) == sorted.insert(j, file),
        forall|i: int| j <= i < sorted.len() ==> goes_before(file, #[trigger] sorted[i]),
        j > 0 ==> !goes_before(file, sorted[j - 1]),
    decreases sorted.len(),
{
    if sorted.len() == 0 {
        assert(sorted.insert(0, file) =~= seq![file]);
        0
    } else if goes_before(file, sorted.last()) {
        let j = lemma_placed_is_insert(sorted.drop_last(), file);
        assert(sorted.drop_last().insert(j, file).push(sorted.last()) =~= sorted.insert(j, file));
        assert forall|i: int| j <= i < sorted.len() implies goes_before(
            file,
            #[trigger] sorted[i],
        ) by {
            if i < sorted.len() - 1 {
                assert(sorted.drop_last()[i] == sorted[i]);
            }
        }
        if j > 0 {
            assert(sorted.drop_last()[j - 1] == sorted[j - 1]);
        }
        j
    } else {
        assert(sorted.insert(sorted.len() as int, file) =~= sorted.push(file));
        sorted.len() as int
    }
}

/// Putting a file in its place keeps files in order, and adds that file and
/// nothing else.
pub proof fn lemma_placed_in_order(sorted: Seq<DirFile>, file: DirFile)
    requires
        in_order(sorted),
    ensures
        in_order(placed(sorted, file)),
        placed(sorted, file).to_multiset() == sorted.to_multiset().insert(file),
        placed(sorted, file).len() == sorted.len() + 1,
{
    broadcast use to_multiset_insert;

    let j = lemma_placed_is_insert(sorted, file);
    let out = placed(sorted, file);
    assert forall|a: int, b: int| 0 <= a < b < out.len() implies !goes_before(
        #[trigger] out[b],
        #[trigger] out[a],
    ) by {
        let x = path_of(file);
        if b == j {
            // The file stands behind `out[a]`, which stood at or before `j - 1`.
            let last = path_of(sorted[j - 1]);
            let early = path_of(sorted[a]);
            assert(out[a] == sorted[a]);
            lemma_rank_paths_mirrored(x, last);
            lemma_rank_paths_mirrored(early, last);
            if a < j - 1 {
                assert(!goes_before(sorted[j - 1], sorted[a]));
            } else {
                lemma_rank_paths_mirrored(last, last);
            }
            lemma_rank_paths_chain(early, last, x);
            lemma_rank_paths_mirrored(early, x);
        } else if a == j {
            assert(out[b] == sorted[b - 1]);
            assert(goes_before(file, sorted[b - 1]));
            lemma_rank_paths_mirrored(x, path_of(sorted[b - 1]));
        } else {
            let ia = if a < j { a } else { a - 1 };
            let ib = if b < j { b } else { b - 1 };
            assert(out[a] == sorted[ia]);
            assert(out[b] == sorted[ib]);
            assert(!goes_before(sorted[ib], sorted[ia]));
        }
    }
}

/// The order in which files are hashed holds the files that were given, each
/// as often as it was given, and no file in it goes before a file that
/// stands before it.
pub proof fn lemma_ordered_is_sorted(files: Seq<DirFile>)
    ensures
        in_order(ordered(files)),
        ordered(files).to_multiset() == files.to_multiset(),
        ordered(files).len() == files.len(),
    decreases files.len(),
{
    broadcast use to_multiset_build;

    if files.len() > 0 {
        lemma_ordered_is_sorted(files.drop_last());
        lemma_placed_in_order(ordered(files.drop_last()), files.last());
        assert(files =~= files.drop_last().push(files.last()));
    }
}

/// Files that were given in order are hashed in the order in which they
/// were given.
pub proof fn lemma_ordered_keeps_order(files: Seq<DirFile>)
    requires
        in_order(files),
    ensures
        ordered(files) == files,
    decreases files.len(),
{
    if files.len() > 0 {
        let front = files.drop_last();
        assert forall|i: int, j: int| 0 <= i < j < front.len() implies !goes_before(
            #[trigger] front[j],
            #[trigger] front[i],
        ) by {
            assert(front[i] == files[i] && front[j] == files[j]);
        }
        lemma_ordered_keeps_order(front);
        if front.len() > 0 {
            assert(front.last() == files[files.len() - 2]);
            assert(files.last() == files[files.len() - 1]);
            assert(!goes_before(files.last(), front.last()));
        }
        assert(files =~= front.push(files.last()));
    }
}

/// Whether no two files of a sequence have the same path.
pub open spec fn distinct_paths(files: Seq<DirFile>) -> bool {
    forall|i: int, j: int|
        0 <= i < j < files.len() ==> path_of(#[trigger] files[i]) != path_of(#[trigger] files[j])
}

/// Two sequences of the same files, both in order and without a path that
/// occurs twice, are the same sequence: there is one way to order files
/// with distinct paths.
pub proof fn lemma_order_is_unique(a: Seq<DirFile>, b: Seq<DirFile>)
    requires
        a.to_multiset() == b.to_multiset(),
        in_order(a),
        in_order(b),
        distinct_paths(a),
    ensures
        a == b,
    decreases a.len(),
{
    to_multiset_len(a);
    to_multiset_len(b);
    assert(a.len() == b.len());
    if a.len() == 0 {
        assert(a =~= b);
    } else {
        let n = a.len() - 1;
        // The last file of `b` stands somewhere in `a`, and the last of `a` somewhere in `b`.
        assert(b.contains(b[n]));
        to_multiset_contains(b, b[n]);
        to_multiset_contains(a, b[n]);
        assert(a.contains(b[n]));
        let m = choose|m: int| 0 <= m < a.len() && a[m] == b[n];
        assert(a.contains(a[n]));
        to_multiset_contains(a, a[n]);
        to_multiset_contains(b, a[n]);
        assert(b.contains(a[n]));
        let k = choose|k: int| 0 <= k < b.len() && b[k] == a[n];
        if m != n {
            let low = path_of(a[m]);
            let high = path_of(a[n]);
            assert(!goes_before(a[n], a[m]));
            lemma_rank_paths_mirrored(low, high);
            assert(rank_paths(low, high) == Rank::Before);
            if k != n {
                assert(!goes_before(b[n], b[k]));
            } else {
                lemma_rank_paths_mirrored(low, low);
            }
            assert(false);
        }
        assert(a[n] == b[n]);
        let a0 = a.drop_last();
        let b0 = b.drop_last();
        assert(a0 =~= a.remove(n));
        assert(b0 =~= b.remove(n));
        to_multiset_remove(a, n);
        to_multiset_remove(b, n);
        assert forall|i: int, j: int| 0 <= i < j < a0.len() implies !goes_before(
            #[trigger] a0[j],
            #[trigger] a0[i],
        ) && path_of(a0[i]) != path_of(a0[j]) by {
            assert(a0[i] == a[i] && a0[j] == a[j]);
        }
        assert forall|i: int, j: int| 0 <= i < j < b0.len() implies !goes_before(
            #[trigger] b0[j],
            #[trigger] b0[i],
        ) by {
            assert(b0[i] == b[i] && b0[j] == b[j]);
        }
        lemma_order_is_unique(a0, b0);
        assert(a =~= a0.push(a[n]));
        assert(b =~= b0.push(b[n]));
    }
}

/// Putting a file with a new path in its place leaves no path twice.
proof fn lemma_placed_distinct(sorted: Seq<DirFile>, file: DirFile)
    requires
        distinct_paths(sorted),
        forall|i: int| 0 <= i < sorted.len() ==> path_of(#[trigger] sorted[i]) != path_of(file),
    ensures
        distinct_paths(placed(sorted, file)),
{
    let j = lemma_placed_is_insert(sorted, file);
    let out = placed(sorted, file);
    assert forall|a: int, b: int| 0 <= a < b < out.len() implies path_of(#[trigger] out[a])
        != path_of(#[trigger] out[b]) by {
        let ia = if a < j { a } else { a - 1 };
        let ib = if b < j { b } else { b - 1 };
        if a == j {
            assert(out[b] == sorted[ib]);
        } else if b == j {
            assert(out[a] == sorted[ia]);
        } else {
            assert(out[a] == sorted[ia]);
            assert(out[b] == sorted[ib]);
        }
    }
}

/// Ordering files with distinct paths leaves no path twice.
proof fn lemma_ordered_distinct(files: Seq<DirFile>)
    requires
        distinct_paths(files),
    ensures
        distinct_paths(ordered(files)),
    decreases files.len(),
{
    if files.len() > 0 {
        let front = files.drop_last();
        assert forall|i: int, j: int| 0 <= i < j < front.len() implies path_of(#[trigger] front[i])
            != path_of(#[trigger] front[j]) by {
            assert(front[i] == files[i] && front[j] == files[j]);
        }
        lemma_ordered_distinct(front);
        lemma_ordered_is_sorted(front);
        let sorted = ordered(front);
        assert forall|i: int| 0 <= i < sorted.len() implies path_of(#[trigger] sorted[i])
            != path_of(files.last()) by {
            assert(sorted.contains(sorted[i]));
            to_multiset_contains(sorted, sorted[i]);
            to_multiset_contains(front, sorted[i]);
            assert(front.contains(sorted[i]));
            let k = choose|k: int| 0 <= k < front.len() && front[k] == sorted[i];
            assert(files[k] == sorted[i]);
            assert(files[files.len() - 1] == files.last());
        }
        lemma_placed_distinct(sorted, files.last());
    }
}

/// The hash of a directory does not depend on the order in which its files
/// were found: where no two files have the same path, the same files in
/// any two orders give the same hash.
pub proof fn lemma_hash_ignores_given_order(a: Seq<DirFile>, b: Seq<DirFile>)
    requires
        a.to_multiset() == b.to_multiset(),
        distinct_paths(a),
    ensures
        ordered(a) == ordered(b),
        dir_hash(a) == dir_hash(b),
{
    lemma_ordered_is_sorted(a);
    lemma_ordered_is_sorted(b);
    lemma_ordered_distinct(a);
    lemma_order_is_unique(ordered(a), ordered(b));
}

} // verus!
