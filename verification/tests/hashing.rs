use alcatraz::hashing::{
    dir_message, hash_dir_sha256, rank_of_names, rank_of_paths, sort_files, to_hex, DirFile, Rank,
};

fn file(path: &str, contents: &[u8]) -> DirFile {
    DirFile {
        components: path.split('/').filter(|n| !n.is_empty()).map(|n| n.as_bytes().to_vec()).collect(),
        rel_path: path.as_bytes().to_vec(),
        contents: contents.to_vec(),
    }
}

fn paths(files: &[DirFile]) -> Vec<String> {
    files.iter().map(|f| String::from_utf8(f.rel_path.clone()).unwrap()).collect()
}

#[test]
fn an_empty_directory_hashes_the_empty_message() {
    assert!(dir_message(&Vec::new()).is_empty());
    assert_eq!(
        hash_dir_sha256(Vec::new()),
        "e3b0c44298fc1c149afbf4c8996fb92427ae41e4649b934ca495991b7852b855"
    );
}

#[test]
fn a_file_is_framed_by_path_and_length() {
    let files = vec![file("mod.ron", b"(id: \"base\")")];
    let message = dir_message(&files);
    assert_eq!(
        to_hex(&message),
        "6d6f642e726f6e000c000000000000002869643a2022626173652229"
    );
    assert_eq!(
        hash_dir_sha256(files),
        "f621deba1b93db1a4f7e74de5b97a4441bf00039a53964c7a2763d877a33d3dc"
    );
}

#[test]
fn several_files_are_hashed_in_the_order_of_their_paths() {
    let mut big: Vec<u8> = (0..=255u8).collect();
    big.push(0x00);
    big.push(0xff);
    let expected = "45925bd2ab98c67141d77daa55cfc19e317fc82135fb4f2306cb859df57e24f8";
    assert_eq!(hash_dir_sha256(vec![file("a.txt", b"hello"), file("sub/b.bin", &big)]), expected);
    assert_eq!(hash_dir_sha256(vec![file("sub/b.bin", &big), file("a.txt", b"hello")]), expected);
    assert_ne!(hash_dir_sha256(vec![file("a.txt", b"hello"), file("sub/b.bin", b"")]), expected);
}

#[test]
fn paths_are_ordered_name_by_name() {
    // By bytes "a-b/x" would come first; by names "a" comes before "a-b".
    let expected = "3b5e3d3896e4002e68265f50ee4ba38d554400532ca6a5e2858d1bdfbf2db758";
    assert_eq!(hash_dir_sha256(vec![file("a-b/x", b"2"), file("a/x", b"1")]), expected);
    assert_eq!(hash_dir_sha256(vec![file("a/x", b"1"), file("a-b/x", b"2")]), expected);
    let sorted = sort_files(vec![file("a-b/x", b"2"), file("a/x", b"1")]);
    assert_eq!(paths(&sorted), vec!["a/x", "a-b/x"]);
}

#[test]
fn sorting_puts_each_file_in_its_place() {
    let given = vec![
        file("z", b""),
        file("b/c/d", b""),
        file("b/c", b""),
        file("a", b""),
        file("b/a", b""),
        file("b", b""),
        file("ab", b""),
    ];
    let sorted = sort_files(given);
    assert_eq!(paths(&sorted), vec!["a", "ab", "b", "b/a", "b/c", "b/c/d", "z"]);
    assert!(sort_files(Vec::new()).is_empty());
}

#[test]
fn files_with_the_same_path_keep_their_order() {
    let sorted = sort_files(vec![file("b", b"1"), file("a", b"2"), file("b", b"3"), file("a", b"4")]);
    let contents: Vec<Vec<u8>> = sorted.iter().map(|f| f.contents.clone()).collect();
    assert_eq!(contents, vec![b"2".to_vec(), b"4".to_vec(), b"1".to_vec(), b"3".to_vec()]);
}

#[test]
fn names_rank_by_their_first_difference() {
    let rank = |a: &str, b: &str| rank_of_names(&a.as_bytes().to_vec(), &b.as_bytes().to_vec());
    assert_eq!(rank("", ""), Rank::Same);
    assert_eq!(rank("abc", "abc"), Rank::Same);
    assert_eq!(rank("", "a"), Rank::Before);
    assert_eq!(rank("a", ""), Rank::After);
    assert_eq!(rank("ab", "abc"), Rank::Before);
    assert_eq!(rank("abd", "abc"), Rank::After);
    assert_eq!(rank("Z", "a"), Rank::Before);
    assert_eq!(rank_of_names(&vec![0xff], &vec![0x00, 0xff]), Rank::After);
}

#[test]
fn paths_rank_by_their_first_differing_name() {
    assert_eq!(rank_of_paths(&file("a/b", b""), &file("a/b", b"x")), Rank::Same);
    assert_eq!(rank_of_paths(&file("a", b""), &file("a/b", b"")), Rank::Before);
    assert_eq!(rank_of_paths(&file("a/b", b""), &file("a", b"")), Rank::After);
    assert_eq!(rank_of_paths(&file("a/c", b""), &file("a/b/z", b"")), Rank::After);
    assert_eq!(rank_of_paths(&file("a/x", b""), &file("a-b/x", b"")), Rank::Before);
    assert_eq!(rank_of_paths(&file("", b""), &file("", b"")), Rank::Same);
}

#[test]
fn the_length_takes_eight_bytes_least_significant_first() {
    let contents = vec![7u8; 0x0102];
    let message = dir_message(&vec![file("", &contents)]);
    assert_eq!(message.len(), 1 + 8 + 0x0102);
    assert_eq!(&message[..9], &[0u8, 0x02, 0x01, 0, 0, 0, 0, 0, 0][..]);
    assert!(message[9..].iter().all(|b| *b == 7));
}

#[test]
fn hex_digits_are_lower_case_and_high_digit_first() {
    assert_eq!(to_hex(&Vec::new()), "");
    assert_eq!(to_hex(&vec![0x00, 0x09, 0x0a, 0x1f, 0xa0, 0xff]), "00090a1fa0ff");
    let all: Vec<u8> = (0..=255u8).collect();
    let expected: String = all.iter().map(|b| format!("{:02x}", b)).collect();
    assert_eq!(to_hex(&all), expected);
}
