use vstd::prelude::*;
use crate::geom::Rect;

verus! {

/// A physical display, which has dimensions, and may show several workspaces, one of
/// them at a time.
#[derive(Copy, Clone, Debug)]
pub struct Display {
    pub id: u32,
    pub area: Rect,
    /// The ID of the workspace that the display shows.
    pub active: Option<u32>,
}

impl Display {
    pub fn new(id: u32, area: Rect) -> (d: Display)
        ensures
            d == (Display { id, area, active: None }),
    {
        Display { id, area, active: None }
    }

    pub fn area(&self) -> (r: Rect)
        ensures
            r == self.area,
    {
        self.area
    }
}

/// Index `i` is the place of the display with `id` in `s`, or the length of `s`.
pub open spec fn is_display_index(s: Seq<Display>, id: u32, i: int) -> bool {
    &&& 0 <= i <= s.len()
    &&& forall|j: int| 0 <= j < i ==> (#[trigger] s[j]).id != id
    &&& (i < s.len() ==> s[i].id == id)
}

/// The place of the first display with `id` in `s`, or the length of `s`.
pub open spec fn display_index(s: Seq<Display>, id: u32) -> int {
    choose|i: int| is_display_index(s, id, i)
}

pub proof fn lemma_display_index_unique(s: Seq<Display>, id: u32, i: int)
    requires
        is_display_index(s, id, i),
    ensures
        display_index(s, id) == i,
{
    let c = display_index(s, id);
    assert(is_display_index(s, id, c));
    if c < i {
        assert(s[c].id != id);
    }
    if i < c {
        assert(s[i].id != id);
    }
}

/// Every list has such an index for every ID.
pub proof fn lemma_display_index_exists(s: Seq<Display>, id: u32)
    ensures
        is_display_index(s, id, display_index(s, id)),
    decreases s.len(),
{
    if s.len() == 0 {
        assert(is_display_index(s, id, 0));
    } else {
        let t = s.drop_last();
        lemma_display_index_exists(t, id);
        let c = display_index(t, id);
        if c < t.len() {
            assert(is_display_index(s, id, c)) by {
                assert forall|j: int| 0 <= j < c implies (#[trigger] s[j]).id != id by {
                    assert(t[j] == s[j]);
                }
                assert(t[c] == s[c]);
            }
        } else if s.last().id == id {
            assert(is_display_index(s, id, t.len() as int)) by {
                assert forall|j: int| 0 <= j < t.len() implies (#[trigger] s[j]).id != id by {
                    assert(t[j] == s[j]);
                }
            }
        } else {
            assert(is_display_index(s, id, s.len() as int)) by {
                assert forall|j: int| 0 <= j < s.len() implies (#[trigger] s[j]).id != id by {
                    if j < t.len() {
                        assert(t[j] == s[j]);
                    }
                }
            }
        }
    }
}

/// The place of the first display with `id` among `displays`, or their number.
pub fn find_display(displays: &Vec<Display>, id: u32) -> (i: usize)
    ensures
        i as int == display_index(displays@, id),
        is_display_index(displays@, id, i as int),
{
    let mut i: usize = 0;
    while i < displays.len() && displays[i].id != id
        invariant
            0 <= i <= displays.len(),
            forall|j: int| 0 <= j < i ==> (#[trigger] displays@[j]).id != id,
        decreases displays.len() - i,
    {
        i += 1;
    }
    proof {
        lemma_display_index_unique(displays@, id, i as int);
    }
    i
}

} // verus!
