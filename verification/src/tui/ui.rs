use vstd::prelude::*;

verus! {

/// A rectangle of the terminal, in cells.
#[derive(Clone, Copy, Debug, Default, PartialEq, Eq, Structural)]
pub struct Rect {
    pub x: u16,
    pub y: u16,
    pub width: u16,
    pub height: u16,
}

/// The margin a centering asks for, or zero.
pub open spec fn margin_of(min_margin: Option<u16>) -> int {
    match min_margin {
        Some(m) => m as int,
        None => 0,
    }
}

/// Computes a rectangle with a desired width and height that is centered within a container rectangle.
/// The rectangle is constrained to fit within its container and (optionally) be inset by a given margin.
#[must_use]
pub fn centered_rect(container: Rect, target_width: u16, target_height: u16, min_margin: Option<
    u16,
>) -> (r: Rect)
    requires
        2 * margin_of(min_margin) <= container.width,
        2 * margin_of(min_margin) <= container.height,
        container.x + container.width <= u16::MAX,
        container.y + container.height <= u16::MAX,
    ensures
        ({
            let m = margin_of(min_margin);
            &&& (if target_width > container.width - 2 * m {
                r.x == container.x + m && r.width == container.width - 2 * m
            } else {
                r.x == container.x + (container.width - target_width) / 2 && r.width
                    == target_width
            })
            &&& (if target_height > container.height - 2 * m {
                r.y == container.y + m && r.height == container.height - 2 * m
            } else {
                r.y == container.y + (container.height - target_height) / 2 && r.height
                    == target_height
            })
        }),
{
    let min_margin = match min_margin {
        Some(m) => m,
        None => 0,
    };

    let (x, width) = if target_width > container.width - 2 * min_margin {
        (container.x + min_margin, container.width - 2 * min_margin)
    } else {
        (container.x + (container.width - target_width) / 2, target_width)
    };

    let (y, height) = if target_height > container.height - 2 * min_margin {
        (container.y + min_margin, container.height - 2 * min_margin)
    } else {
        (container.y + (container.height - target_height) / 2, target_height)
    };

    Rect { x, y, width, height }
}

} // verus!
