//! A drawing session: the canvas, the pointer, and what each input event
//! does to them.

use crate::brush::{scrolled, Radius, Scroll};
use crate::canvas::{Canvas, Raster};
use crate::color::{Color, Ink};
use crate::geometry::{in_band, in_disc, Point, Position};
use vstd::prelude::*;

verus! {

/// Width of the canvas that a session has unless told otherwise, in pixels.
pub const DEFAULT_WIDTH: usize = 809;

/// Height of the canvas that a session has unless told otherwise, in pixels.
pub const DEFAULT_HEIGHT: usize = 500;

/// Coordinate, along both axes, at which the pointer is taken to be before
/// it has moved.
pub const START_COORDINATE: i32 = 25_600;

/// Radius of the brush before the wheel has turned.
pub const START_RADIUS: i32 = 12_800;

/// Something that the user did.
#[derive(Debug)]
pub enum Event {
    /// A pointer button went down at `at`.
    Press { at: Point, button: u32 },
    /// The pointer moved to `at`, with the first or third button held or not.
    Motion { at: Point, first_held: bool, third_held: bool },
    /// The scroll wheel turned.
    Wheel { turn: Scroll },
    /// A key named `name` went down, with the control key held or not.
    Key { control: bool, name: String },
}

/// What the window has to do after an event.
#[derive(Clone, Copy, Debug, PartialEq, Eq, Structural)]
pub enum Action {
    /// Show the session's frame again.
    Redraw,
    /// Ask where to save the drawing.
    ChooseFile,
    /// Nothing.
    Nothing,
}

/// A session as the contracts see it.
pub struct Scene {
    pub canvas: Raster,
    pub position: Position,
    pub radius: int,
}

impl Scene {
    /// This scene is what a press of `button` at `at` makes of `before`: the
    /// pointer is at `at`, and the button's ink, if it has one, fills the
    /// brush's circle there.
    pub open spec fn after_press(self, before: Scene, at: Position, button: u32) -> bool {
        &&& self.position == at
        &&& self.radius == before.radius
        &&& match Ink::of_button(button) {
            Some(ink) => self.canvas.overpaints(
                before.canvas,
                |p: Position| in_disc(p, at, before.radius),
                ink.shade(),
            ),
            None => self.canvas == before.canvas,
        }
    }

    /// This scene is what a move of the pointer to `at` makes of `before`:
    /// the pointer is at `at`, and the held button's ink, if any, fills the
    /// brush's circle there and the band back to where the pointer was.
    pub open spec fn after_motion(
        self,
        before: Scene,
        at: Position,
        first_held: bool,
        third_held: bool,
    ) -> bool {
        &&& self.position == at
        &&& self.radius == before.radius
        &&& match Ink::of_held(first_held, third_held) {
            Some(ink) => self.canvas.overpaints(
                before.canvas,
                |p: Position|
                    in_disc(p, at, before.radius) || in_band(
                        p,
                        before.position,
                        at,
                        before.radius,
                    ),
                ink.shade(),
            ),
            None => self.canvas == before.canvas,
        }
    }

    /// This scene is what a turn of the wheel makes of `before`: only the
    /// brush's radius changes.
    pub open spec fn after_wheel(self, before: Scene, turn: Scroll) -> bool {
        &&& self.canvas == before.canvas
        &&& self.position == before.position
        &&& self.radius == scrolled(before.radius, turn.amount())
    }
}

/// Whether a key press asks to save the drawing: the key named `s`, with the
/// control key held.
pub open spec fn asks_to_save(control: bool, name: Seq<char>) -> bool {
    control && name == "s"@
}

/// The file name that a save dialog proposes.
pub fn suggested_file_name() -> (result: &'static str)
    ensures
        result@ == "drawing.png"@,
{
    "drawing.png"
}

/// The canvas with the pointer that paints on it.
pub struct Session {
    canvas: Canvas,
    position: Point,
    radius: Radius,
}

impl View for Session {
    type V = Scene;

    closed spec fn view(&self) -> Scene {
        Scene { canvas: self.canvas@, position: self.position@, radius: self.radius@ }
    }
}

impl Session {
    /// A session on a fresh canvas of `width` by `height` pixels; `None`
    /// where no canvas of that size can be made.
    pub fn open(width: usize, height: usize) -> (result: Option<Session>)
        ensures
            result.is_some() <==> Canvas::fits(width as int, height as int),
            result matches Some(session) ==> session@ == (Scene {
                canvas: Raster::blank(width as nat, height as nat, Ink::Erase.shade()),
                position: Position { x: START_COORDINATE as int, y: START_COORDINATE as int },
                radius: START_RADIUS as int,
            }),
    {
        let canvas = match Canvas::create(width, height, Color::background()) {
            Some(canvas) => canvas,
            None => {
                return None;
            },
        };
        let position = match Point::new(START_COORDINATE, START_COORDINATE) {
            Some(position) => position,
            None => {
                return None;
            },
        };
        let radius = match Radius::new(START_RADIUS) {
            Some(radius) => radius,
            None => {
                return None;
            },
        };
        Some(Session { canvas, position, radius })
    }

    /// Takes in one event and says what the window has to do.
    ///
    /// A press or a move of the pointer and a turn of the wheel change the
    /// scene and ask for a redraw. A key press changes nothing; it asks for
    /// a file to be chosen where it is the chord that saves.
    pub fn handle(&mut self, event: Event) -> (action: Action)
        ensures
            final(self)@.canvas.well_formed(),
            final(self)@.canvas.same_frame(old(self)@.canvas),
            Radius::representable(final(self)@.radius),
            match event {
                Event::Press { at, button } => {
                    &&& action == Action::Redraw
                    &&& final(self)@.after_press(old(self)@, at@, button)
                },
                Event::Motion { at, first_held, third_held } => {
                    &&& action == Action::Redraw
                    &&& final(self)@.after_motion(old(self)@, at@, first_held, third_held)
                },
                Event::Wheel { turn } => {
                    &&& action == Action::Redraw
                    &&& final(self)@.after_wheel(old(self)@, turn)
                },
                Event::Key { control, name } => {
                    &&& action == if asks_to_save(control, name@) {
                        Action::ChooseFile
                    } else {
                        Action::Nothing
                    }
                    &&& final(self)@ == old(self)@
                },
            },
    {
        proof {
            use_type_invariant(&self.canvas);
            use_type_invariant(&self.radius);
        }
        match event {
            Event::Press { at, button } => {
                self.position = at;
                match Ink::for_button(button) {
                    Some(ink) => {
                        self.canvas.dot(at, self.radius, ink.color());
                    },
                    None => {},
                }
                Action::Redraw
            },
            Event::Motion { at, first_held, third_held } => {
                let from = self.position;
                self.position = at;
                match Ink::for_held(first_held, third_held) {
                    Some(ink) => {
                        self.canvas.stroke_to(from, at, self.radius, ink.color());
                    },
                    None => {},
                }
                Action::Redraw
            },
            Event::Wheel { turn } => {
                self.radius = self.radius.scroll(turn.steps());
                Action::Redraw
            },
            Event::Key { control, name } => {
                let save_key = "s".to_owned();
                if control && name == save_key {
                    Action::ChooseFile
                } else {
                    Action::Nothing
                }
            },
        }
    }

    /// The drawing so far.
    pub fn canvas(&self) -> (result: &Canvas)
        ensures
            result@ == self@.canvas,
            result@.well_formed(),
    {
        proof {
            use_type_invariant(&self.canvas);
        }
        &self.canvas
    }

    /// Where the pointer was last seen.
    pub fn position(&self) -> (result: Point)
        ensures
            result@ == self@.position,
    {
        self.position
    }

    /// The brush's radius.
    pub fn radius(&self) -> (result: Radius)
        ensures
            result@ == self@.radius,
            Radius::representable(result@),
    {
        proof {
            use_type_invariant(&self.radius);
        }
        self.radius
    }

    /// What the window shows: the drawing, and on top of it the brush's
    /// circle around the pointer in the cursor's colour.
    pub fn frame(&self) -> (result: Canvas)
        ensures
            result@.well_formed(),
            result@.overpaints(
                self@.canvas,
                |p: Position| in_disc(p, self@.position, self@.radius),
                Color { red: 255, green: 255, blue: 255, alpha: 255 },
            ),
    {
        let mut frame = self.canvas.clone();
        frame.dot(self.position, self.radius, Color::cursor());
        frame
    }
}

} // verus!
