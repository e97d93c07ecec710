use vstd::prelude::*;

verus! {

/// The tool at the tablet's tip.
#[derive(Clone, Copy, Debug, PartialEq, Eq, Structural)]
pub enum ToolType {
    Pen,
    Eraser,
    /// Any other tool the tablet reports.
    Other,
}

/// The mouse cursor over the canvas.
#[derive(Clone, Copy, Debug, PartialEq, Eq, Structural)]
pub enum CursorIcon {
    Default,
    /// No cursor is drawn: the stylet touches the screen.
    Hidden,
}

/// What the application knows of the stylet. `sample` is what the tablet last reported
/// of its position (point, pressure, distance, tilt).
pub struct StyletState<P> {
    pub sample: P,
    pub pressed: bool,
    pub in_proximity: bool,
    pub tool_type: ToolType,
}

impl<P> StyletState<P> {
    /// A pen away from the tablet, last seen at `sample`.
    pub fn new(sample: P) -> (r: StyletState<P>)
        ensures
            r.sample == sample,
            !r.pressed,
            !r.in_proximity,
            r.tool_type == ToolType::Pen,
    {
        StyletState { sample, pressed: false, in_proximity: false, tool_type: ToolType::Pen }
    }
}

/// An event of the tablet.
pub enum StyletEvent<P> {
    /// The stylet moved.
    Axis { sample: P, tool_type: ToolType },
    /// The tip went down (`down`) or up.
    Tip { sample: P, down: bool, tool_type: ToolType },
    /// The stylet came near the tablet (`entering`) or went away.
    Proximity { sample: P, entering: bool, tool_type: ToolType },
    /// A button of the stylet was pressed or released.
    Button { tool_type: ToolType },
}

/// Where a touch of the stylet lands.
pub enum TouchPlace<Q> {
    /// No canvas is on screen.
    NoCanvas,
    /// The touch is outside the canvas.
    Outside,
    /// The touch is on the canvas, at this point of the page.
    Inside(Q),
}

/// What a touch of the stylet does.
#[derive(Debug, PartialEq, Eq)]
pub enum TouchAction<Q> {
    /// Nothing: the tip is not pressed, no canvas is on screen, or no page is open.
    Nothing,
    /// Nothing: the touch is outside the canvas.
    Outside,
    /// The pen adds this point to the stroke being drawn.
    AddPoint(Q),
    /// The eraser erases around this point.
    Erase(Q),
    /// The eraser is too near the point where it last erased to erase again.
    SkipErase,
    /// The tool is neither a pen nor an eraser.
    UnknownTool,
}

/// What a touch does: `pressed` tells whether the tip is down, `has_page` whether a page
/// is open, `has_last_erase` whether the eraser erased before, and `near_last_erase`
/// whether the touch is near where it did.
pub open spec fn touch_outcome<Q>(
    pressed: bool,
    place: TouchPlace<Q>,
    has_page: bool,
    tool_type: ToolType,
    has_last_erase: bool,
    near_last_erase: bool,
) -> TouchAction<Q> {
    if !pressed {
        TouchAction::Nothing
    } else {
        match place {
            TouchPlace::NoCanvas => TouchAction::Nothing,
            TouchPlace::Outside => TouchAction::Outside,
            TouchPlace::Inside(q) => if !has_page {
                TouchAction::Nothing
            } else {
                match tool_type {
                    ToolType::Pen => TouchAction::AddPoint(q),
                    ToolType::Eraser => if has_last_erase && near_last_erase {
                        TouchAction::SkipErase
                    } else {
                        TouchAction::Erase(q)
                    },
                    ToolType::Other => TouchAction::UnknownTool,
                }
            },
        }
    }
}

/// Where the eraser last erased, after a touch: drawing or an unknown tool forgets it,
/// erasing records it, and anything else keeps it.
pub open spec fn last_erase_after<Q>(last: Option<Q>, action: TouchAction<Q>) -> Option<Q> {
    match action {
        TouchAction::AddPoint(_) => None,
        TouchAction::Erase(q) => Some(q),
        TouchAction::UnknownTool => None,
        _ => last,
    }
}

/// What the application does after an event of the stylet.
#[derive(Debug, PartialEq, Eq)]
pub struct StyletReaction<Q> {
    pub touch: TouchAction<Q>,
    /// The cursor to show from now on, if it changes.
    pub cursor: Option<CursorIcon>,
    /// Whether the stroke being drawn is to be saved.
    pub save_strokes: bool,
}

/// The stylet and the point where the eraser last erased, after an event, and what the
/// application does. A touch is judged before the event changes the stylet, so the tip
/// going down draws no point itself.
pub open spec fn stylet_step<P, Q>(
    s: StyletState<P>,
    last: Option<Q>,
    event: StyletEvent<P>,
    place: TouchPlace<Q>,
    has_page: bool,
    near_last_erase: bool,
) -> (StyletState<P>, Option<Q>, StyletReaction<Q>) {
    match event {
        StyletEvent::Axis { sample, tool_type } => {
            let t = touch_outcome(s.pressed, place, has_page, tool_type, last is Some, near_last_erase);
            (
                StyletState { sample, tool_type, ..s },
                last_erase_after(last, t),
                StyletReaction { touch: t, cursor: None, save_strokes: false },
            )
        },
        StyletEvent::Tip { sample, down, tool_type } => {
            let t = if down {
                touch_outcome(s.pressed, place, has_page, tool_type, last is Some, near_last_erase)
            } else {
                TouchAction::Nothing
            };
            (
                StyletState { sample, pressed: down, tool_type, ..s },
                last_erase_after(last, t),
                StyletReaction {
                    touch: t,
                    cursor: Some(if down { CursorIcon::Hidden } else { CursorIcon::Default }),
                    save_strokes: !down,
                },
            )
        },
        StyletEvent::Proximity { sample, entering, tool_type } => (
            StyletState { sample, in_proximity: entering, tool_type, ..s },
            last,
            StyletReaction { touch: TouchAction::Nothing, cursor: None, save_strokes: false },
        ),
        StyletEvent::Button { tool_type } => (
            StyletState { tool_type, ..s },
            last,
            StyletReaction { touch: TouchAction::Nothing, cursor: None, save_strokes: false },
        ),
    }
}

/// The stylet, and where the eraser last erased on the page.
pub struct StyletManager<P, Q> {
    pub stylet: StyletState<P>,
    pub last_erase_at_pos: Option<Q>,
}

impl<P, Q: Copy> StyletManager<P, Q> {
    /// A stylet away from the tablet, last seen at `sample`, that has not erased yet.
    pub fn new(sample: P) -> (r: StyletManager<P, Q>)
        ensures
            r.stylet.sample == sample,
            !r.stylet.pressed,
            !r.stylet.in_proximity,
            r.stylet.tool_type == ToolType::Pen,
            r.last_erase_at_pos is None,
    {
        StyletManager { stylet: StyletState::new(sample), last_erase_at_pos: None }
    }

    /// Decides what a touch of the stylet does, and records where the eraser erased.
    pub fn touch_gpu(
        &mut self,
        place: TouchPlace<Q>,
        has_page: bool,
        tool_type: ToolType,
        near_last_erase: bool,
    ) -> (r: TouchAction<Q>)
        ensures
            r == touch_outcome(
                old(self).stylet.pressed,
                place,
                has_page,
                tool_type,
                old(self).last_erase_at_pos is Some,
                near_last_erase,
            ),
            final(self).last_erase_at_pos == last_erase_after(old(self).last_erase_at_pos, r),
            final(self).stylet == old(self).stylet,
    {
        if !self.stylet.pressed {
            return TouchAction::Nothing;
        }
        match place {
            TouchPlace::NoCanvas => TouchAction::Nothing,
            TouchPlace::Outside => TouchAction::Outside,
            TouchPlace::Inside(q) => {
                if !has_page {
                    return TouchAction::Nothing;
                }
                match tool_type {
                    ToolType::Pen => {
                        self.last_erase_at_pos = None;
                        TouchAction::AddPoint(q)
                    },
                    ToolType::Eraser => {
                        if self.last_erase_at_pos.is_some() && near_last_erase {
                            TouchAction::SkipErase
                        } else {
                            self.last_erase_at_pos = Some(q);
                            TouchAction::Erase(q)
                        }
                    },
                    ToolType::Other => {
                        self.last_erase_at_pos = None;
                        TouchAction::UnknownTool
                    },
                }
            },
        }
    }

    /// Handles an event of the stylet: `place` is where the event's point lands,
    /// `has_page` whether a page is open, `near_last_erase` whether the point is near
    /// where the eraser last erased.
    pub fn manage_stylet_event(
        &mut self,
        event: StyletEvent<P>,
        place: TouchPlace<Q>,
        has_page: bool,
        near_last_erase: bool,
    ) -> (r: StyletReaction<Q>)
        ensures
            (final(self).stylet, final(self).last_erase_at_pos, r) == stylet_step(
                old(self).stylet,
                old(self).last_erase_at_pos,
                event,
                place,
                has_page,
                near_last_erase,
            ),
    {
        match event {
            StyletEvent::Axis { sample, tool_type } => {
                let touch = self.touch_gpu(place, has_page, tool_type, near_last_erase);
                self.stylet.sample = sample;
                self.stylet.tool_type = tool_type;
                StyletReaction { touch, cursor: None, save_strokes: false }
            },
            StyletEvent::Tip { sample, down, tool_type } => {
                let reaction = if down {
                    let touch = self.touch_gpu(place, has_page, tool_type, near_last_erase);
                    StyletReaction { touch, cursor: Some(CursorIcon::Hidden), save_strokes: false }
                } else {
                    StyletReaction {
                        touch: TouchAction::Nothing,
                        cursor: Some(CursorIcon::Default),
                        save_strokes: true,
                    }
                };
                self.stylet.sample = sample;
                self.stylet.pressed = down;
                self.stylet.tool_type = tool_type;
                reaction
            },
            StyletEvent::Proximity { sample, entering, tool_type } => {
                self.stylet.sample = sample;
                self.stylet.in_proximity = entering;
                self.stylet.tool_type = tool_type;
                StyletReaction { touch: TouchAction::Nothing, cursor: None, save_strokes: false }
            },
            StyletEvent::Button { tool_type } => {
                self.stylet.tool_type = tool_type;
                StyletReaction { touch: TouchAction::Nothing, cursor: None, save_strokes: false }
            },
        }
    }
}


/// While the tip is up, no event of the stylet draws or erases: not even the tip going
/// down, whose own point is not drawn.
pub proof fn law_lifted_stylet_touches_nothing<P, Q>(
    s: StyletState<P>,
    last: Option<Q>,
    event: StyletEvent<P>,
    place: TouchPlace<Q>,
    has_page: bool,
    near_last_erase: bool,
)
    requires
        !s.pressed,
    ensures
        stylet_step(s, last, event, place, has_page, near_last_erase).2.touch == TouchAction::<Q>::Nothing,
        stylet_step(s, last, event, place, has_page, near_last_erase).1 == last,
{
}

/// Once the tip went down, moving the pen over an open page adds the point it reaches.
pub proof fn law_pen_down_then_move_draws<P, Q>(
    s: StyletState<P>,
    last: Option<Q>,
    down_sample: P,
    down_place: TouchPlace<Q>,
    sample: P,
    q: Q,
    has_page: bool,
    near1: bool,
    near2: bool,
)
    requires
        has_page,
    ensures
        ({
            let (s1, last1, _) = stylet_step(
                s,
                last,
                StyletEvent::Tip { sample: down_sample, down: true, tool_type: ToolType::Pen },
                down_place,
                has_page,
                near1,
            );
            let (s2, last2, r2) = stylet_step(
                s1,
                last1,
                StyletEvent::Axis { sample, tool_type: ToolType::Pen },
                TouchPlace::Inside(q),
                has_page,
                near2,
            );
            &&& s1.pressed
            &&& r2.touch == TouchAction::AddPoint(q)
            &&& last2 is None
            &&& s2.sample == sample
        }),
{
}

/// The tip going up saves the stroke being drawn, shows the cursor again, and leaves the
/// stylet lifted.
pub proof fn law_tip_up_saves<P, Q>(
    s: StyletState<P>,
    last: Option<Q>,
    sample: P,
    tool_type: ToolType,
    place: TouchPlace<Q>,
    has_page: bool,
    near_last_erase: bool,
)
    ensures
        ({
            let (s1, last1, r) = stylet_step(
                s,
                last,
                StyletEvent::Tip { sample, down: false, tool_type },
                place,
                has_page,
                near_last_erase,
            );
            &&& r.save_strokes
            &&& r.cursor == Some(CursorIcon::Default)
            &&& r.touch == TouchAction::<Q>::Nothing
            &&& !s1.pressed
            &&& last1 == last
        }),
{
}

/// The eraser remembers where it erased, and a next touch of the eraser on the page near
/// that point, with the tip still down, erases nothing.
pub proof fn law_eraser_skips_near_last_erase<P, Q>(
    s: StyletState<P>,
    last: Option<Q>,
    event: StyletEvent<P>,
    place: TouchPlace<Q>,
    has_page: bool,
    near1: bool,
    q: Q,
    sample: P,
    q2: Q,
)
    requires
        stylet_step(s, last, event, place, has_page, near1).2.touch == TouchAction::Erase(q),
        stylet_step(s, last, event, place, has_page, near1).0.pressed,
    ensures
        ({
            let (s1, last1, _) = stylet_step(s, last, event, place, has_page, near1);
            &&& last1 == Some(q)
            &&& stylet_step(
                s1,
                last1,
                StyletEvent::Axis { sample, tool_type: ToolType::Eraser },
                TouchPlace::Inside(q2),
                has_page,
                true,
            ).2.touch == TouchAction::<Q>::SkipErase
        }),
{
}

} // verus!
