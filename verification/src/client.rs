//! What a client decides: the command it sends, which replicated player is
//! its own, and where the camera's viewport goes.

use vstd::prelude::*;
use crate::direction::{Axis, Direction};
use crate::player::PlayerInput;
use crate::protocol::{Player, PlayerInputCommand};

verus! {

/// Width of the virtual screen, in virtual pixels.
pub const VIRTUAL_WIDTH: u32 = 320;

/// Height of the virtual screen, in virtual pixels.
pub const VIRTUAL_HEIGHT: u32 = 180;

/// The keys that steer a player, each with whether it is held down.
#[derive(Debug, Clone, Copy, PartialEq, Eq, Structural)]
pub struct PressedKeys {
    pub key_w: bool,
    pub key_s: bool,
    pub key_a: bool,
    pub key_d: bool,
    pub arrow_up: bool,
    pub arrow_down: bool,
    pub arrow_left: bool,
    pub arrow_right: bool,
    pub shift_left: bool,
    pub shift_right: bool,
}

/// The intent that the held keys express.
#[derive(Debug, Clone, Copy, PartialEq, Eq, Structural)]
pub struct LocalInputState {
    pub move_dir: Direction,
    pub sprint: bool,
}

impl PressedKeys {
    /// The intent that the keys express. The letter keys and the arrow keys
    /// steer alike, keys for opposite ways cancel, and either shift key
    /// sprints.
    pub open spec fn intent(self) -> LocalInputState {
        LocalInputState {
            move_dir: Direction {
                x: Axis::of_keys(self.key_d || self.arrow_right, self.key_a || self.arrow_left),
                y: Axis::of_keys(self.key_w || self.arrow_up, self.key_s || self.arrow_down),
            },
            sprint: self.shift_left || self.shift_right,
        }
    }
}

impl LocalInputState {
    /// The command that carries the intent, with or without a dash request.
    pub open spec fn command(self, dash: bool) -> PlayerInputCommand {
        PlayerInputCommand {
            x: self.move_dir.x.sign() as i8,
            y: self.move_dir.y.sign() as i8,
            sprint: self.sprint,
            dash,
        }
    }
}

/// Reads the intent off the held keys.
pub fn capture_player_input(keys: &PressedKeys) -> (state: LocalInputState)
    ensures
        state == keys.intent(),
{
    LocalInputState {
        move_dir: Direction {
            x: Axis::from_keys(keys.key_d || keys.arrow_right, keys.key_a || keys.arrow_left),
            y: Axis::from_keys(keys.key_w || keys.arrow_up, keys.key_s || keys.arrow_down),
        },
        sprint: keys.shift_left || keys.shift_right,
    }
}

/// Builds the command of one tick. `dash` is to be set only on the tick on
/// which the dash key went down. The server reads the command back as the
/// same intent.
pub fn send_player_input(state: &LocalInputState, dash: bool) -> (command: PlayerInputCommand)
    ensures
        command == state.command(dash),
        -1 <= command.x <= 1,
        -1 <= command.y <= 1,
        PlayerInput::of_command(command) == (PlayerInput {
            move_dir: state.move_dir,
            sprint: state.sprint,
            dash_pressed: dash,
        }),
{
    PlayerInputCommand {
        x: state.move_dir.x.to_wire(),
        y: state.move_dir.y.to_wire(),
        sprint: state.sprint,
        dash,
    }
}

/// Tells for each replicated player whether it is the client's own: the one
/// whose identity is the identity that the client connected with.
pub fn tag_local_player(players: &Vec<Player>, local_client_id: u64) -> (tags: Vec<bool>)
    ensures
        tags@.len() == players@.len(),
        forall|i: int|
            0 <= i < players@.len() ==> tags@[i] == (players@[i].network_id == local_client_id),
{
    let mut tags: Vec<bool> = Vec::new();
    let mut i: usize = 0;
    while i < players.len()
        invariant
            i <= players@.len(),
            tags@.len() == i,
            forall|j: int| 0 <= j < i ==> tags@[j] == (players@[j].network_id == local_client_id),
        decreases players@.len() - i,
    {
        tags.push(players[i].network_id == local_client_id);
        i += 1;
    }
    tags
}

/// A rectangle of physical pixels within a window.
#[derive(Debug, Clone, Copy, PartialEq, Eq, Structural)]
pub struct Viewport {
    pub x: u32,
    pub y: u32,
    pub width: u32,
    pub height: u32,
}

/// How often a virtual length fits into a physical one. A virtual length of
/// zero sets no limit.
pub open spec fn axis_scale(physical: u32, virtual_length: u32) -> nat {
    if virtual_length == 0 {
        u32::MAX as nat
    } else {
        (physical / virtual_length) as nat
    }
}

/// The whole number by which the virtual screen is scaled up: the largest
/// that lets it fit into the window along both axes, and at least one.
pub open spec fn integer_scale(width: u32, height: u32, virtual_width: u32, virtual_height: u32) -> nat {
    let fit_x = axis_scale(width, virtual_width);
    let fit_y = axis_scale(height, virtual_height);
    let fit = if fit_x <= fit_y { fit_x } else { fit_y };
    if fit < 1 { 1 } else { fit }
}

/// A scaled length, kept within `u32`.
pub open spec fn scaled_length(virtual_length: u32, scale: nat) -> u32 {
    if virtual_length * scale > u32::MAX {
        u32::MAX
    } else {
        (virtual_length * scale) as u32
    }
}

/// The space left on one side when `inner` is centred in `outer`; none
/// where it does not fit.
pub open spec fn margin(outer: u32, inner: u32) -> u32 {
    if inner >= outer {
        0
    } else {
        ((outer - inner) / 2) as u32
    }
}

/// The viewport of a virtual screen in a window: scaled up by a whole
/// number and centred, with bars on the sides where the window is larger.
pub open spec fn letterboxed(width: u32, height: u32, virtual_width: u32, virtual_height: u32) -> Viewport {
    let scale = integer_scale(width, height, virtual_width, virtual_height);
    let w = scaled_length(virtual_width, scale);
    let h = scaled_length(virtual_height, scale);
    Viewport { x: margin(width, w), y: margin(height, h), width: w, height: h }
}

fn scale_axis(physical: u32, virtual_length: u32) -> (fit: u32)
    ensures
        fit == axis_scale(physical, virtual_length),
{
    if virtual_length == 0 {
        u32::MAX
    } else {
        physical / virtual_length
    }
}

fn scale_length(virtual_length: u32, scale: u32) -> (length: u32)
    ensures
        length == scaled_length(virtual_length, scale as nat),
{
    match virtual_length.checked_mul(scale) {
        Some(length) => length,
        None => u32::MAX,
    }
}

/// Places the viewport of the camera in a window of the given physical
/// size.
pub fn update_camera_viewport(
    width: u32,
    height: u32,
    virtual_width: u32,
    virtual_height: u32,
) -> (viewport: Viewport)
    ensures
        viewport == letterboxed(width, height, virtual_width, virtual_height),
        viewport.width <= width ==> viewport.x + viewport.width + viewport.x <= width,
        viewport.height <= height ==> viewport.y + viewport.height + viewport.y <= height,
{
    let fit_x = scale_axis(width, virtual_width);
    let fit_y = scale_axis(height, virtual_height);
    let fit = if fit_x <= fit_y { fit_x } else { fit_y };
    let scale = if fit < 1 { 1 } else { fit };
    let w = scale_length(virtual_width, scale);
    let h = scale_length(virtual_height, scale);
    Viewport {
        x: width.saturating_sub(w) / 2,
        y: height.saturating_sub(h) / 2,
        width: w,
        height: h,
    }
}

/// Where the virtual screen fits into the window at all, the viewport lies
/// within the window and covers a whole multiple of the virtual screen.
pub proof fn lemma_viewport_fits(width: u32, height: u32, virtual_width: u32, virtual_height: u32)
    requires
        0 < virtual_width <= width,
        0 < virtual_height <= height,
    ensures
        ({
            let v = letterboxed(width, height, virtual_width, virtual_height);
            let scale = integer_scale(width, height, virtual_width, virtual_height);
            &&& scale >= 1
            &&& v.width == virtual_width * scale
            &&& v.height == virtual_height * scale
            &&& v.x + v.width <= width
            &&& v.y + v.height <= height
        }),
{
    let scale = integer_scale(width, height, virtual_width, virtual_height);
    let fit_x = (width / virtual_width) as nat;
    let fit_y = (height / virtual_height) as nat;
    assert(virtual_width * fit_x <= width) by (nonlinear_arith)
        requires
            fit_x == width as nat / virtual_width as nat,
            virtual_width > 0,
    ;
    assert(virtual_height * fit_y <= height) by (nonlinear_arith)
        requires
            fit_y == height as nat / virtual_height as nat,
            virtual_height > 0,
    ;
    assert(fit_x >= 1) by (nonlinear_arith)
        requires
            fit_x == width as nat / virtual_width as nat,
            0 < virtual_width <= width,
    ;
    assert(fit_y >= 1) by (nonlinear_arith)
        requires
            fit_y == height as nat / virtual_height as nat,
            0 < virtual_height <= height,
    ;
    assert(virtual_width * scale <= virtual_width * fit_x) by (nonlinear_arith)
        requires
            scale <= fit_x,
    ;
    assert(virtual_height * scale <= virtual_height * fit_y) by (nonlinear_arith)
        requires
            scale <= fit_y,
    ;
}

} // verus!
