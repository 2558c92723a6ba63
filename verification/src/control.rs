//! The decisions of the control loop: what the state of the keys does to a
//! renderer, and what an event of the window asks for.

use vstd::prelude::*;
use crate::args::ColorScheme;
use crate::fixed::Fixed;
use crate::renderer::Renderer;
use crate::state::RenderState;

verus! {

/// The amount that one held arrow key pans by: 0.05, to 53 significant
/// bits.
pub const PAN_STEP: i64 = 3602879701896397;

/// The factor of a zoom toward the centre: 0.9, to 53 significant bits.
pub const ZOOM_IN: i64 = 64851834634135144;

/// The factor of a zoom away from the centre: 1.1, to 53 significant bits.
pub const ZOOM_OUT: i64 = 79263353441720736;

/// The keys that the control loop reads, as the input source reports them
/// for one update.
#[derive(Clone, Copy, Debug)]
pub struct InputState {
    /// The key that ends the program was pressed.
    pub escape: bool,
    /// The arrow keys that are held down.
    pub left: bool,
    pub right: bool,
    pub up: bool,
    pub down: bool,
    /// The key that zooms toward the centre is held down.
    pub zoom_in: bool,
    /// The key that zooms away from the centre is held down.
    pub zoom_out: bool,
    /// The digit keys one to nine that were pressed, each selecting a scheme.
    pub scheme_keys: [bool; 9],
}

/// What the control loop does after the keys were handled.
#[derive(Clone, Copy, Debug, PartialEq, Eq, Structural)]
pub enum InputOutcome {
    /// Leave the loop.
    Quit,
    /// Render, present the frame and ask for a redraw.
    Update,
    /// Nothing.
    Idle,
}

/// The events of the window that the control loop tells apart.
#[derive(Clone, Copy, Debug, PartialEq, Eq, Structural)]
pub enum LoopEvent {
    CloseRequested,
    Resized,
    RedrawRequested,
    MainEventsCleared,
    LoopDestroyed,
    Other,
}

/// What the control loop does in answer to an event.
#[derive(Clone, Copy, Debug, PartialEq, Eq, Structural)]
pub enum LoopAction {
    /// Leave the loop.
    Exit,
    /// Ask for a redraw.
    RequestRedraw,
    /// Render, present the frame and ask for a redraw.
    RenderAndRedraw,
    /// Nothing.
    Idle,
}

/// The scheme that the digit key with the given index, counted from zero,
/// selects.
pub open spec fn scheme_of_key(index: int) -> ColorScheme {
    if index == 0 {
        ColorScheme::Smooth
    } else if index == 1 {
        ColorScheme::Zebra
    } else if index == 2 {
        ColorScheme::Red
    } else if index == 3 {
        ColorScheme::Blue
    } else if index == 4 {
        ColorScheme::BlackAndWhite
    } else if index == 5 {
        ColorScheme::Rainbow
    } else if index == 6 {
        ColorScheme::Psychedelic
    } else if index == 7 {
        ColorScheme::GreenGradient
    } else {
        ColorScheme::Electric
    }
}

/// The scheme that the first `n` digit keys select: that of the highest key
/// among them that was pressed.
pub open spec fn selected_scheme(keys: Seq<bool>, n: int) -> Option<ColorScheme>
    decreases n,
{
    if n <= 0 {
        None
    } else if keys[n - 1] {
        Some(scheme_of_key(n - 1))
    } else {
        selected_scheme(keys, n - 1)
    }
}

/// The pan along one axis: one step toward the key that is held, nothing
/// where both or neither are.
pub open spec fn pan_amount(backward: bool, forward: bool) -> int {
    (if forward {
        PAN_STEP as int
    } else {
        0
    }) - (if backward {
        PAN_STEP as int
    } else {
        0
    })
}

impl InputState {
    /// Whether any key asks for a change of the view.
    pub open spec fn asks_update(self) -> bool {
        ||| pan_amount(self.left, self.right) != 0
        ||| pan_amount(self.up, self.down) != 0
        ||| self.zoom_in
        ||| self.zoom_out
        ||| selected_scheme(self.scheme_keys@, 9).is_some()
    }
}

/// The state after the pan that the arrow keys ask for.
pub open spec fn after_pan_keys(s: RenderState, input: InputState) -> RenderState {
    let dx = pan_amount(input.left, input.right);
    let dy = pan_amount(input.up, input.down);
    if dx != 0 || dy != 0 {
        s.panned(dx, dy)
    } else {
        s
    }
}

/// The state after the zooms that the zoom keys ask for.
pub open spec fn after_zoom_keys(s: RenderState, input: InputState) -> RenderState {
    let t = if input.zoom_in {
        s.zoomed(ZOOM_IN as int)
    } else {
        s
    };
    if input.zoom_out {
        t.zoomed(ZOOM_OUT as int)
    } else {
        t
    }
}

/// The state after the change of scheme that the digit keys ask for.
pub open spec fn after_scheme_keys(s: RenderState, input: InputState) -> RenderState {
    match selected_scheme(input.scheme_keys@, 9) {
        Some(scheme) => s.recolored(scheme),
        None => s,
    }
}

/// The state after the keys were handled: unchanged where the program is to
/// end, and else panned, zoomed and recoloured, in this order.
pub open spec fn after_input(s: RenderState, input: InputState) -> RenderState {
    if input.escape {
        s
    } else {
        after_scheme_keys(after_zoom_keys(after_pan_keys(s, input), input), input)
    }
}

/// What follows the handling of the keys.
pub open spec fn input_outcome(input: InputState) -> InputOutcome {
    if input.escape {
        InputOutcome::Quit
    } else if input.asks_update() {
        InputOutcome::Update
    } else {
        InputOutcome::Idle
    }
}

/// What an event asks for, given whether a pass is still owed.
pub open spec fn action_for(scanning: bool, event: LoopEvent) -> LoopAction {
    match event {
        LoopEvent::CloseRequested => LoopAction::Exit,
        LoopEvent::Resized => LoopAction::RequestRedraw,
        LoopEvent::RedrawRequested => if scanning {
            LoopAction::RenderAndRedraw
        } else {
            LoopAction::Idle
        },
        LoopEvent::MainEventsCleared => if scanning {
            LoopAction::RequestRedraw
        } else {
            LoopAction::Idle
        },
        LoopEvent::LoopDestroyed => LoopAction::Exit,
        LoopEvent::Other => LoopAction::Idle,
    }
}

/// The scheme that the digit key with the given index selects.
fn key_scheme(index: usize) -> (scheme: ColorScheme)
    requires
        index < 9,
    ensures
        scheme == scheme_of_key(index as int),
{
    if index == 0 {
        ColorScheme::Smooth
    } else if index == 1 {
        ColorScheme::Zebra
    } else if index == 2 {
        ColorScheme::Red
    } else if index == 3 {
        ColorScheme::Blue
    } else if index == 4 {
        ColorScheme::BlackAndWhite
    } else if index == 5 {
        ColorScheme::Rainbow
    } else if index == 6 {
        ColorScheme::Psychedelic
    } else if index == 7 {
        ColorScheme::GreenGradient
    } else {
        ColorScheme::Electric
    }
}

/// The scheme that the digit keys select, if any was pressed.
fn pressed_scheme(keys: &[bool; 9]) -> (choice: Option<ColorScheme>)
    ensures
        choice == selected_scheme(keys@, 9),
{
    let mut choice: Option<ColorScheme> = None;
    let mut n: usize = 0;
    while n < 9
        invariant
            n <= 9,
            choice == selected_scheme(keys@, n as int),
        decreases 9 - n,
    {
        if keys[n] {
            choice = Some(key_scheme(n));
        }
        n = n + 1;
    }
    choice
}

/// Applies the keys to the renderer: a pan by one step for the arrow keys
/// that are held, a zoom for each zoom key that is held, and the scheme of
/// the highest digit key that was pressed.  Says whether the loop is to end,
/// to show the changed view, or to do nothing.
pub fn handle_input(renderer: &mut Renderer, input: &InputState) -> (outcome: InputOutcome)
    requires
        old(renderer).wf(),
    ensures
        final(renderer).wf(),
        final(renderer)@ == after_input(old(renderer)@, *input),
        outcome == input_outcome(*input),
{
    if input.escape {
        return InputOutcome::Quit;
    }
    let mut needs_update = false;
    let mut pan_x: i64 = 0;
    let mut pan_y: i64 = 0;
    if input.left {
        pan_x = pan_x - PAN_STEP;
    }
    if input.right {
        pan_x = pan_x + PAN_STEP;
    }
    if input.up {
        pan_y = pan_y - PAN_STEP;
    }
    if input.down {
        pan_y = pan_y + PAN_STEP;
    }
    if pan_x != 0 || pan_y != 0 {
        renderer.pan(Fixed::from_raw(pan_x), Fixed::from_raw(pan_y));
        needs_update = true;
    }
    if input.zoom_in {
        renderer.zoom(Fixed::from_raw(ZOOM_IN));
        needs_update = true;
    }
    if input.zoom_out {
        renderer.zoom(Fixed::from_raw(ZOOM_OUT));
        needs_update = true;
    }
    match pressed_scheme(&input.scheme_keys) {
        Some(scheme) => {
            renderer.change_color_scheme(scheme);
            needs_update = true;
        },
        None => {},
    }
    if needs_update {
        InputOutcome::Update
    } else {
        InputOutcome::Idle
    }
}

/// Decides what an event of the window asks for.  A request to close and
/// the end of the loop leave it; a resize asks for a redraw; a redraw
/// renders the next pass while one is owed; and while one is owed, the end
/// of a batch of events asks for a redraw.
pub fn on_event(renderer: &Renderer, event: LoopEvent) -> (action: LoopAction)
    ensures
        action == action_for(renderer@.is_scanning(), event),
{
    match event {
        LoopEvent::CloseRequested => LoopAction::Exit,
        LoopEvent::Resized => LoopAction::RequestRedraw,
        LoopEvent::RedrawRequested => {
            if renderer.is_scanning() {
                LoopAction::RenderAndRedraw
            } else {
                LoopAction::Idle
            }
        },
        LoopEvent::MainEventsCleared => {
            if renderer.is_scanning() {
                LoopAction::RequestRedraw
            } else {
                LoopAction::Idle
            }
        },
        LoopEvent::LoopDestroyed => LoopAction::Exit,
        LoopEvent::Other => LoopAction::Idle,
    }
}

} // verus!
