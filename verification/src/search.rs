use vstd::prelude::*;
use crate::display::Display;
use crate::geom::Direction;
use crate::window::Window;

verus! {

/// Whether focus can go from the window `w` to the window `other` in `direction`: the
/// two are different windows of one workspace, not members of one stack, and `other`
/// lies strictly on that side of `w`.
pub open spec fn reachable(w: Window, other: Window, direction: Direction) -> bool {
    &&& other.workspace == w.workspace
    &&& other.id != w.id
    &&& !(w.stack is Some && other.stack == w.stack)
    &&& w.rect.faces_spec(other.rect, direction)
}

/// Whether focus that leaves `w` in `direction` goes to `a` rather than to `b`: `a` is
/// nearer, or as near and has the lesser ID.
pub open spec fn preferred_to(w: Window, a: Window, b: Window, direction: Direction) -> bool {
    w.rect.distance_toward_spec(a.rect, direction) < w.rect.distance_toward_spec(
        b.rect,
        direction,
    ) || (w.rect.distance_toward_spec(a.rect, direction) == w.rect.distance_toward_spec(
        b.rect,
        direction,
    ) && a.id.order() < b.id.order())
}

/// The window at `i` is the one of `s` that focus goes to from `w` in `direction`: no
/// window that focus can go to is preferred to it, and it is preferred to every such
/// window before it.
pub open spec fn is_nearest(s: Seq<Window>, w: Window, direction: Direction, i: int) -> bool {
    &&& 0 <= i < s.len()
    &&& reachable(w, s[i], direction)
    &&& forall|j: int|
        0 <= j < s.len() && reachable(w, #[trigger] s[j], direction) ==> !preferred_to(
            w,
            s[j],
            s[i],
            direction,
        )
    &&& forall|j: int|
        0 <= j < i && reachable(w, #[trigger] s[j], direction) ==> preferred_to(
            w,
            s[i],
            s[j],
            direction,
        )
}

/// The window of `s` that is nearest to `w` in `direction`, if focus can go to any: of
/// several that are nearest, the one with the least ID.
pub open spec fn nearest_of(s: Seq<Window>, w: Window, direction: Direction) -> Option<Window> {
    if exists|i: int| is_nearest(s, w, direction, i) {
        Some(s[choose|i: int| is_nearest(s, w, direction, i)])
    } else {
        None
    }
}

/// There is one first nearest window.
pub proof fn lemma_nearest_unique(s: Seq<Window>, w: Window, direction: Direction, i: int)
    requires
        is_nearest(s, w, direction, i),
    ensures
        nearest_of(s, w, direction) == Some(s[i]),
{
    let c = choose|i: int| is_nearest(s, w, direction, i);
    if c < i {
        assert(reachable(w, s[c], direction));
    }
    if i < c {
        assert(reachable(w, s[i], direction));
    }
}

/// Whether focus can go from `w` to `other` in `direction`.
pub fn can_reach(w: &Window, other: &Window, direction: Direction) -> (r: bool)
    ensures
        r == reachable(*w, *other, direction),
{
    let same_stack = match (w.stack, other.stack) {
        (Some(a), Some(b)) => a == b,
        _ => false,
    };
    other.workspace == w.workspace && other.id != w.id && !same_stack && w.rect.faces(
        &other.rect,
        direction,
    )
}

/// The window among `windows` that is nearest to `w` in `direction`, if focus can go
/// to any. Of several that are nearest it is the one with the least ID.
pub fn nearest(windows: &Vec<Window>, w: &Window, direction: Direction) -> (r: Option<Window>)
    ensures
        r == nearest_of(windows@, *w, direction),
{
    let mut best: Option<usize> = None;
    let mut least: u128 = 0;
    let mut i: usize = 0;
    while i < windows.len()
        invariant
            0 <= i <= windows.len(),
            match best {
                Some(b) => {
                    &&& b < i
                    &&& reachable(*w, windows@[b as int], direction)
                    &&& least == w.rect.distance_toward_spec(windows@[b as int].rect, direction)
                    &&& forall|j: int|
                        0 <= j < i && reachable(*w, #[trigger] windows@[j], direction)
                            ==> !preferred_to(*w, windows@[j], windows@[b as int], direction)
                    &&& forall|j: int|
                        0 <= j < b && reachable(*w, #[trigger] windows@[j], direction)
                            ==> preferred_to(*w, windows@[b as int], windows@[j], direction)
                },
                None => forall|j: int| 0 <= j < i ==> !reachable(*w, #[trigger] windows@[j], direction),
            },
        decreases windows.len() - i,
    {
        if can_reach(w, &windows[i], direction) {
            let distance = w.rect.distance_toward(&windows[i].rect, direction);
            match best {
                Some(b) => {
                    if distance < least || (distance == least && windows[i].id.comes_before(
                        &windows[b].id,
                    )) {
                        best = Some(i);
                        least = distance;
                    }
                },
                None => {
                    best = Some(i);
                    least = distance;
                },
            }
        }
        i += 1;
    }
    match best {
        Some(b) => {
            proof {
                lemma_nearest_unique(windows@, *w, direction, b as int);
            }
            Some(windows[b])
        },
        None => {
            assert forall|k: int| !is_nearest(windows@, *w, direction, k) by {
                if 0 <= k < windows@.len() {
                    assert(!reachable(*w, windows@[k], direction));
                }
            }
            None
        },
    }
}

/// Whether focus can go from the display `d` to the display `other` in `direction`: the
/// two are different displays, and `other` lies strictly on that side of `d`.
pub open spec fn display_reachable(d: Display, other: Display, direction: Direction) -> bool {
    other.id != d.id && d.area.faces_spec(other.area, direction)
}

/// Whether focus that leaves the display `d` in `direction` goes to `a` rather than to
/// `b`: `a` is nearer, or as near and has the lesser ID.
pub open spec fn display_preferred_to(d: Display, a: Display, b: Display, direction: Direction)
    -> bool {
    d.area.distance_toward_spec(a.area, direction) < d.area.distance_toward_spec(
        b.area,
        direction,
    ) || (d.area.distance_toward_spec(a.area, direction) == d.area.distance_toward_spec(
        b.area,
        direction,
    ) && a.id < b.id)
}

/// The display at `i` is the one of `s` that focus goes to from `d` in `direction`: no
/// display that focus can go to is preferred to it, and it is preferred to every such
/// display before it.
pub open spec fn is_nearest_display(s: Seq<Display>, d: Display, direction: Direction, i: int)
    -> bool {
    &&& 0 <= i < s.len()
    &&& display_reachable(d, s[i], direction)
    &&& forall|j: int|
        0 <= j < s.len() && display_reachable(d, #[trigger] s[j], direction)
            ==> !display_preferred_to(d, s[j], s[i], direction)
    &&& forall|j: int|
        0 <= j < i && display_reachable(d, #[trigger] s[j], direction) ==> display_preferred_to(
            d,
            s[i],
            s[j],
            direction,
        )
}

/// The display of `s` that is nearest to `d` in `direction`, if focus can go to any: of
/// several that are nearest, the one with the least ID.
pub open spec fn nearest_display_of(s: Seq<Display>, d: Display, direction: Direction) -> Option<
    Display,
> {
    if exists|i: int| is_nearest_display(s, d, direction, i) {
        Some(s[choose|i: int| is_nearest_display(s, d, direction, i)])
    } else {
        None
    }
}

/// There is one first nearest display.
pub proof fn lemma_nearest_display_unique(s: Seq<Display>, d: Display, direction: Direction, i: int)
    requires
        is_nearest_display(s, d, direction, i),
    ensures
        nearest_display_of(s, d, direction) == Some(s[i]),
{
    let c = choose|i: int| is_nearest_display(s, d, direction, i);
    if c < i {
        assert(display_reachable(d, s[c], direction));
    }
    if i < c {
        assert(display_reachable(d, s[i], direction));
    }
}

/// The display among `displays` that is nearest to `d` in `direction`, if focus can go
/// to any. Of several that are nearest it is the one with the least ID.
pub fn nearest_display(displays: &Vec<Display>, d: &Display, direction: Direction) -> (r: Option<
    Display,
>)
    ensures
        r == nearest_display_of(displays@, *d, direction),
{
    let mut best: Option<usize> = None;
    let mut least: u128 = 0;
    let mut i: usize = 0;
    while i < displays.len()
        invariant
            0 <= i <= displays.len(),
            match best {
                Some(b) => {
                    &&& b < i
                    &&& display_reachable(*d, displays@[b as int], direction)
                    &&& least == d.area.distance_toward_spec(displays@[b as int].area, direction)
                    &&& forall|j: int|
                        0 <= j < i && display_reachable(*d, #[trigger] displays@[j], direction)
                            ==> !display_preferred_to(
                            *d,
                            displays@[j],
                            displays@[b as int],
                            direction,
                        )
                    &&& forall|j: int|
                        0 <= j < b && display_reachable(*d, #[trigger] displays@[j], direction)
                            ==> display_preferred_to(
                            *d,
                            displays@[b as int],
                            displays@[j],
                            direction,
                        )
                },
                None => forall|j: int|
                    0 <= j < i ==> !display_reachable(*d, #[trigger] displays@[j], direction),
            },
        decreases displays.len() - i,
    {
        if displays[i].id != d.id && d.area.faces(&displays[i].area, direction) {
            let distance = d.area.distance_toward(&displays[i].area, direction);
            match best {
                Some(b) => {
                    if distance < least || (distance == least && displays[i].id < displays[b].id) {
                        best = Some(i);
                        least = distance;
                    }
                },
                None => {
                    best = Some(i);
                    least = distance;
                },
            }
        }
        i += 1;
    }
    match best {
        Some(b) => {
            proof {
                lemma_nearest_display_unique(displays@, *d, direction, b as int);
            }
            Some(displays[b])
        },
        None => {
            assert forall|k: int| !is_nearest_display(displays@, *d, direction, k) by {
                if 0 <= k < displays@.len() {
                    assert(!display_reachable(*d, displays@[k], direction));
                }
            }
            None
        },
    }
}

} // verus!
