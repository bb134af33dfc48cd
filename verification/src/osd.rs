//! The decisions of the on-screen display: when its surface lives, where it
//! stands, and which face it shows.

use crate::text;
use vstd::prelude::*;

verus! {

/// How long the surface outlives the last audio frame.
pub const IDLE_TEARDOWN_NANOS: u128 = 500_000_000;

/// How many of the latest frames the level is taken from.
pub const LEVEL_FRAMES: usize = 8;

/// Where on the screen the display stands.
#[derive(Debug, PartialEq, Eq, Structural, Clone, Copy)]
pub enum OsdPosition {
    BottomCenter,
    TopCenter,
    BottomLeft,
    BottomRight,
    TopLeft,
    TopRight,
}

/// The edges that a surface is anchored to, and its margins to the edges.
#[derive(Debug, PartialEq, Eq, Structural, Clone, Copy)]
pub struct Placement {
    pub anchor_top: bool,
    pub anchor_bottom: bool,
    pub anchor_left: bool,
    pub anchor_right: bool,
    pub margin_top: i32,
    pub margin_bottom: i32,
    pub margin_left: i32,
    pub margin_right: i32,
}

impl OsdPosition {
    pub open spec fn at_top(self) -> bool {
        self is TopCenter || self is TopLeft || self is TopRight
    }

    pub open spec fn at_left(self) -> bool {
        self is BottomLeft || self is TopLeft
    }

    pub open spec fn at_right(self) -> bool {
        self is BottomRight || self is TopRight
    }
}

/// The margin to an edge: there is one where the surface is anchored.
pub open spec fn margin_if(anchored: bool, margin: i32) -> i32 {
    if anchored {
        margin
    } else {
        0
    }
}

/// A surface is anchored to the edges that its position names, and keeps its
/// margin from those edges alone.
pub fn position_to_anchor_and_margins(pos: OsdPosition, margin: i32) -> (res: Placement)
    ensures
        res.anchor_top == pos.at_top(),
        res.anchor_bottom == !pos.at_top(),
        res.anchor_left == pos.at_left(),
        res.anchor_right == pos.at_right(),
        res.margin_top == margin_if(res.anchor_top, margin),
        res.margin_bottom == margin_if(res.anchor_bottom, margin),
        res.margin_left == margin_if(res.anchor_left, margin),
        res.margin_right == margin_if(res.anchor_right, margin),
{
    let (top, left, right) = match pos {
        OsdPosition::BottomCenter => (false, false, false),
        OsdPosition::TopCenter => (true, false, false),
        OsdPosition::BottomLeft => (false, true, false),
        OsdPosition::BottomRight => (false, false, true),
        OsdPosition::TopLeft => (true, true, false),
        OsdPosition::TopRight => (true, false, true),
    };
    Placement {
        anchor_top: top,
        anchor_bottom: !top,
        anchor_left: left,
        anchor_right: right,
        margin_top: if top {
            margin
        } else {
            0
        },
        margin_bottom: if top {
            0
        } else {
            margin
        },
        margin_left: if left {
            margin
        } else {
            0
        },
        margin_right: if right {
            margin
        } else {
            0
        },
    }
}

/// No position is anchored to two opposite edges, nor to neither of top and
/// bottom; two positions that are anchored alike are one.
pub proof fn law_positions(a: OsdPosition, b: OsdPosition)
    ensures
        !(a.at_left() && a.at_right()),
        a.at_top() == b.at_top() && a.at_left() == b.at_left() && a.at_right() == b.at_right()
            ==> a == b,
{
}

/// What to do with the surface.
#[derive(Debug, PartialEq, Eq, Structural, Clone, Copy)]
pub enum SurfaceAction {
    Nothing,
    Create,
    TearDown,
    Render,
}

/// Whether the display is idle: no frame came yet, or none of late.
pub open spec fn is_idle(since_frame: Option<u128>) -> bool {
    match since_frame {
        Some(nanos) => nanos >= IDLE_TEARDOWN_NANOS,
        None => true,
    }
}

/// What to do when an audio frame arrives: it brings the surface up.
pub fn on_frame_ping(has_surface: bool) -> (res: SurfaceAction)
    ensures
        res == (if has_surface {
            SurfaceAction::Nothing
        } else {
            SurfaceAction::Create
        }),
{
    if has_surface {
        SurfaceAction::Nothing
    } else {
        SurfaceAction::Create
    }
}

/// What to do on a tick of the redraw timer, given how many nanoseconds ago the
/// last frame came, if one did.
pub fn tick(since_frame: Option<u128>, has_surface: bool) -> (res: SurfaceAction)
    ensures
        res == (if !has_surface {
            SurfaceAction::Nothing
        } else if is_idle(since_frame) {
            SurfaceAction::TearDown
        } else {
            SurfaceAction::Render
        }),
{
    let idle = match since_frame {
        Some(nanos) => nanos >= IDLE_TEARDOWN_NANOS,
        None => true,
    };
    if !has_surface {
        SurfaceAction::Nothing
    } else if idle {
        SurfaceAction::TearDown
    } else {
        SurfaceAction::Render
    }
}

/// The size of the surface: what the compositor asks for, and in a dimension
/// that it leaves open what is configured.
pub fn accepted_size(asked: (u32, u32), configured: (u32, u32)) -> (res: (u32, u32))
    ensures
        res.0 == (if asked.0 == 0 {
            configured.0
        } else {
            asked.0
        }),
        res.1 == (if asked.1 == 0 {
            configured.1
        } else {
            asked.1
        }),
{
    let width: u32 = if asked.0 == 0 {
        configured.0
    } else {
        asked.0
    };
    let height: u32 = if asked.1 == 0 {
        configured.1
    } else {
        asked.1
    };
    (width, height)
}

/// The extent of the textures of a surface, which is not empty.
pub fn texture_extent(width: u32, height: u32) -> (res: (u32, u32))
    ensures
        res.0 == (if width == 0 {
            1
        } else {
            width
        }),
        res.1 == (if height == 0 {
            1
        } else {
            height
        }),
{
    let w: u32 = if width == 0 {
        1
    } else {
        width
    };
    let h: u32 = if height == 0 {
        1
    } else {
        height
    };
    (w, h)
}

/// Which of the formats on offer to take, given which of them are of the
/// preferred kind: the first that is, else the first; none where none is on
/// offer.
pub fn choose_format(preferred: &[bool]) -> (res: Option<usize>)
    ensures
        match res {
            Some(i) => {
                &&& i < preferred@.len()
                &&& forall|k: int| 0 <= k < i ==> !preferred@[k]
                &&& preferred@[i as int] || i == 0 && !preferred@.contains(true)
            },
            None => preferred@.len() == 0,
        },
{
    for i in 0..preferred.len()
        invariant
            forall|k: int| 0 <= k < i ==> !preferred@[k],
    {
        if preferred[i] {
            return Some(i);
        }
    }
    if preferred.len() > 0 {
        Some(0)
    } else {
        None
    }
}

/// Whether the display shows the recording face, given what the state file
/// holds, if it could be read. A file that cannot be read counts as recording.
pub fn is_recording(state: Option<&str>) -> (res: bool)
    ensures
        res == match state {
            Some(s) => text::trimmed(s@) == "recording"@ || text::trimmed(s@) == "streaming"@,
            None => true,
        },
{
    match state {
        Some(s) => {
            let s = s.trim();
            text::same(s, "recording") || text::same(s, "streaming")
        },
        None => true,
    }
}

/// Where the frames that the level is taken from start, among all at hand.
pub fn level_start(frames: usize) -> (res: usize)
    ensures
        res <= frames,
        frames - res == (if frames < LEVEL_FRAMES {
            frames
        } else {
            LEVEL_FRAMES
        }),
{
    if frames < LEVEL_FRAMES {
        0
    } else {
        frames - LEVEL_FRAMES
    }
}

/// By how many tenths of a second bar `i` of `bars` lags behind in the wave:
/// the bars of the first half count up from the first, those of the second up
/// to the first again, so that the wave fans out and closes.
pub fn stagger(i: usize, bars: usize) -> (res: i128)
    requires
        i < bars,
    ensures
        res == (if 2 * i < bars {
            i as int
        } else {
            i - bars
        }),
{
    if i < bars - bars / 2 {
        i as i128
    } else {
        i as i128 - bars as i128
    }
}

/// Each position is anchored to the edges of its name, and its margin is from
/// these edges and no others.
pub proof fn law_position_names(margin: i32)
    ensures
        OsdPosition::TopCenter.at_top() && OsdPosition::TopLeft.at_top()
            && OsdPosition::TopRight.at_top(),
        !OsdPosition::BottomCenter.at_top() && !OsdPosition::BottomLeft.at_top()
            && !OsdPosition::BottomRight.at_top(),
        OsdPosition::TopLeft.at_left() && OsdPosition::BottomLeft.at_left(),
        !OsdPosition::TopCenter.at_left() && !OsdPosition::TopRight.at_left()
            && !OsdPosition::BottomCenter.at_left() && !OsdPosition::BottomRight.at_left(),
        OsdPosition::TopRight.at_right() && OsdPosition::BottomRight.at_right(),
        !OsdPosition::TopCenter.at_right() && !OsdPosition::TopLeft.at_right()
            && !OsdPosition::BottomCenter.at_right() && !OsdPosition::BottomLeft.at_right(),
        margin_if(true, margin) == margin,
        margin_if(false, margin) == 0,
{
}

/// The display is idle from half a second after the last frame on, and before
/// the first.
pub proof fn law_idle(nanos: u128)
    ensures
        is_idle(Some(nanos)) <==> 2 * nanos >= 1_000_000_000,
        is_idle(None),
{
}

} // verus!
