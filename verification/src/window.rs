use vstd::prelude::*;
use crate::geom::Rect;

verus! {

/// An ID assigned to a window by a window manager.
#[derive(Copy, Clone, Debug, Hash, PartialEq, Eq, Structural, PartialOrd, Ord)]
pub struct WindowID(pub u32, pub u32);

impl WindowID {
    /// The place of this ID in the order of all IDs: by the first number,
    /// then by the second.
    pub open spec fn order(self) -> int {
        self.0 * 0x1_0000_0000 + self.1
    }

    /// Two IDs with the same place in the order are the same ID.
    pub proof fn order_is_injective(self, other: WindowID)
        requires
            self.order() == other.order(),
        ensures
            self == other,
    {
    }

    /// Whether this ID comes strictly before `other`.
    pub fn comes_before(&self, other: &WindowID) -> (r: bool)
        ensures
            r == (self.order() < other.order()),
    {
        self.0 < other.0 || (self.0 == other.0 && self.1 < other.1)
    }
}

impl From<(u32, u32)> for WindowID {
    fn from(pair: (u32, u32)) -> (id: WindowID) {
        WindowID(pair.0, pair.1)
    }
}

impl vstd::std_specs::convert::FromSpecImpl<(u32, u32)> for WindowID {
    open spec fn obeys_from_spec() -> bool {
        true
    }

    open spec fn from_spec(pair: (u32, u32)) -> WindowID {
        WindowID(pair.0, pair.1)
    }
}

impl From<WindowID> for (u32, u32) {
    fn from(id: WindowID) -> (pair: (u32, u32)) {
        (id.0, id.1)
    }
}

impl vstd::std_specs::convert::FromSpecImpl<WindowID> for (u32, u32) {
    open spec fn obeys_from_spec() -> bool {
        true
    }

    open spec fn from_spec(id: WindowID) -> (u32, u32) {
        (id.0, id.1)
    }
}

/// A leaf of the tile tree.
#[derive(Copy, Clone, Debug)]
pub struct Window {
    /// The ID the window manager gave this window.
    pub id: WindowID,
    /// Where the window currently lies.
    pub rect: Rect,
    /// The workspace that the window's parent belongs to.
    pub workspace: u32,
    /// Whether the window is shown.
    pub visible: bool,
    /// Handle of the fork that holds the window, or holds its stack.
    pub fork: Option<usize>,
    /// Handle of the stack that holds the window.
    pub stack: Option<usize>,
}

impl Window {
    /// A window that is attached to nothing yet.
    pub open spec fn fresh(id: WindowID) -> Window {
        Window {
            id,
            rect: Rect { x: 1, y: 1, width: 1, height: 1 },
            workspace: 0,
            visible: true,
            fork: None,
            stack: None,
        }
    }

    /// The ID that the window manager gave this window.
    pub fn id(&self) -> (r: WindowID)
        ensures
            r == self.id,
    {
        self.id
    }

    pub fn new(id: WindowID) -> (w: Window)
        ensures
            w == Window::fresh(id),
    {
        Window {
            id,
            rect: Rect::new(1, 1, 1, 1),
            workspace: 0,
            visible: true,
            fork: None,
            stack: None,
        }
    }
}

/// Index `i` is the place of the first window with `id` in `s`, or the length of `s`.
pub open spec fn is_index_of(s: Seq<Window>, id: WindowID, i: int) -> bool {
    &&& 0 <= i <= s.len()
    &&& forall|j: int| 0 <= j < i ==> (#[trigger] s[j]).id != id
    &&& (i < s.len() ==> s[i].id == id)
}

/// The place of the first window with `id` in `s`, or the length of `s` where there is none.
pub open spec fn index_of(s: Seq<Window>, id: WindowID) -> int {
    choose|i: int| is_index_of(s, id, i)
}

/// How many windows in `s` have `id`.
pub open spec fn occurrences(s: Seq<Window>, id: WindowID) -> nat
    decreases s.len(),
{
    if s.len() == 0 {
        0
    } else {
        occurrences(s.drop_last(), id) + if s.last().id == id {
            1nat
        } else {
            0nat
        }
    }
}

pub proof fn lemma_index_of_unique(s: Seq<Window>, id: WindowID, i: int)
    requires
        is_index_of(s, id, i),
    ensures
        index_of(s, id) == i,
{
    let c = index_of(s, id);
    assert(is_index_of(s, id, c));
    if c < i {
        assert(s[c].id != id);
    }
    if i < c {
        assert(s[i].id != id);
    }
}

/// Every list has such an index for every ID.
pub proof fn lemma_index_of_exists(s: Seq<Window>, id: WindowID)
    ensures
        is_index_of(s, id, index_of(s, id)),
    decreases s.len(),
{
    if s.len() == 0 {
        assert(is_index_of(s, id, 0));
    } else {
        let t = s.drop_last();
        lemma_index_of_exists(t, id);
        let c = index_of(t, id);
        if c < t.len() {
            assert(is_index_of(s, id, c)) by {
                assert forall|j: int| 0 <= j < c implies (#[trigger] s[j]).id != id by {
                    assert(t[j] == s[j]);
                }
                assert(t[c] == s[c]);
            }
        } else if s.last().id == id {
            assert(is_index_of(s, id, t.len() as int)) by {
                assert forall|j: int| 0 <= j < t.len() implies (#[trigger] s[j]).id != id by {
                    assert(t[j] == s[j]);
                }
            }
        } else {
            assert(is_index_of(s, id, s.len() as int)) by {
                assert forall|j: int| 0 <= j < s.len() implies (#[trigger] s[j]).id != id by {
                    if j < t.len() {
                        assert(t[j] == s[j]);
                    }
                }
            }
        }
    }
}

/// A list holds an ID as often as zero exactly where the ID has no index in it.
pub proof fn lemma_occurrences_index(s: Seq<Window>, id: WindowID)
    ensures
        (occurrences(s, id) > 0) == (index_of(s, id) < s.len()),
    decreases s.len(),
{
    lemma_index_of_exists(s, id);
    if s.len() > 0 {
        let t = s.drop_last();
        lemma_occurrences_index(t, id);
        lemma_index_of_exists(t, id);
        let c = index_of(t, id);
        if c < t.len() {
            assert(t[c] == s[c]);
            if index_of(s, id) >= s.len() {
                assert(s[c].id != id);
            }
        } else {
            if index_of(s, id) < t.len() {
                assert(t[index_of(s, id)] == s[index_of(s, id)]);
            }
        }
    }
}

/// The place of the first window with `id` in `windows`, or their number.
pub fn position(windows: &Vec<Window>, id: WindowID) -> (i: usize)
    ensures
        i as int == index_of(windows@, id),
        is_index_of(windows@, id, i as int),
{
    let mut i: usize = 0;
    while i < windows.len() && windows[i].id != id
        invariant
            0 <= i <= windows.len(),
            forall|j: int| 0 <= j < i ==> (#[trigger] windows@[j]).id != id,
        decreases windows.len() - i,
    {
        i += 1;
    }
    proof {
        lemma_index_of_unique(windows@, id, i as int);
    }
    i
}

/// How often the list `s` holds `id`.
pub open spec fn times(s: Seq<WindowID>, id: WindowID) -> nat
    decreases s.len(),
{
    if s.len() == 0 {
        0
    } else {
        times(s.drop_last(), id) + if s.last() == id {
            1nat
        } else {
            0nat
        }
    }
}

/// Index `i` is the first place of `id` in `s`, or the length of `s`.
pub open spec fn is_place_of(s: Seq<WindowID>, id: WindowID, i: int) -> bool {
    &&& 0 <= i <= s.len()
    &&& forall|j: int| 0 <= j < i ==> #[trigger] s[j] != id
    &&& (i < s.len() ==> s[i] == id)
}

/// The first place of `id` in `s`, or the length of `s` where it has none.
pub open spec fn place_of(s: Seq<WindowID>, id: WindowID) -> int {
    choose|i: int| is_place_of(s, id, i)
}

/// The list `s` without the first `id` in it.
pub open spec fn forget(s: Seq<WindowID>, id: WindowID) -> Seq<WindowID> {
    if place_of(s, id) < s.len() {
        s.remove(place_of(s, id))
    } else {
        s
    }
}

pub proof fn lemma_place_of_unique(s: Seq<WindowID>, id: WindowID, i: int)
    requires
        is_place_of(s, id, i),
    ensures
        place_of(s, id) == i,
{
    let c = place_of(s, id);
    assert(is_place_of(s, id, c));
    if c < i {
        assert(s[c] != id);
    }
    if i < c {
        assert(s[i] != id);
    }
}

/// Every list has such a place for every ID, and the ID is at that place exactly if the
/// list holds it.
pub proof fn lemma_place_of_exists(s: Seq<WindowID>, id: WindowID)
    ensures
        is_place_of(s, id, place_of(s, id)),
        (times(s, id) > 0) == (place_of(s, id) < s.len()),
    decreases s.len(),
{
    if s.len() == 0 {
        assert(is_place_of(s, id, 0));
    } else {
        let t = s.drop_last();
        lemma_place_of_exists(t, id);
        let c = place_of(t, id);
        if c < t.len() {
            assert(is_place_of(s, id, c)) by {
                assert forall|j: int| 0 <= j < c implies #[trigger] s[j] != id by {
                    assert(t[j] == s[j]);
                }
                assert(t[c] == s[c]);
            }
            lemma_place_of_unique(s, id, c);
        } else if s.last() == id {
            assert(is_place_of(s, id, t.len() as int)) by {
                assert forall|j: int| 0 <= j < t.len() implies #[trigger] s[j] != id by {
                    assert(t[j] == s[j]);
                }
            }
            lemma_place_of_unique(s, id, t.len() as int);
        } else {
            assert(is_place_of(s, id, s.len() as int)) by {
                assert forall|j: int| 0 <= j < s.len() implies #[trigger] s[j] != id by {
                    if j < t.len() {
                        assert(t[j] == s[j]);
                    }
                }
            }
            lemma_place_of_unique(s, id, s.len() as int);
        }
    }
}

/// A list with one more ID holds that ID once more.
pub proof fn lemma_times_push(s: Seq<WindowID>, x: WindowID, id: WindowID)
    ensures
        times(s.push(x), id) == times(s, id) + if x == id {
            1nat
        } else {
            0nat
        },
{
    assert(s.push(x).drop_last() =~= s);
}

/// A list without the ID at `i` holds that ID once less.
pub proof fn lemma_times_remove(s: Seq<WindowID>, i: int, id: WindowID)
    requires
        0 <= i < s.len(),
    ensures
        times(s.remove(i), id) + (if s[i] == id {
            1nat
        } else {
            0nat
        }) == times(s, id),
    decreases s.len(),
{
    if i == s.len() - 1 {
        assert(s.remove(i) =~= s.drop_last());
    } else {
        assert(s.remove(i).drop_last() =~= s.drop_last().remove(i));
        assert(s.remove(i).last() == s.last());
        lemma_times_remove(s.drop_last(), i, id);
    }
}

/// A list that forgets an ID holds it once less if it held it, and every other ID as
/// often as before.
pub proof fn lemma_times_forget(s: Seq<WindowID>, x: WindowID, id: WindowID)
    ensures
        times(forget(s, x), id) + (if x == id && times(s, x) > 0 {
            1nat
        } else {
            0nat
        }) == times(s, id),
{
    lemma_place_of_exists(s, x);
    if place_of(s, x) < s.len() {
        lemma_times_remove(s, place_of(s, x), id);
    }
}

/// The first place of `id` among `ids`, or their number.
pub fn find_id(ids: &Vec<WindowID>, id: WindowID) -> (i: usize)
    ensures
        i as int == place_of(ids@, id),
        is_place_of(ids@, id, i as int),
{
    let mut i: usize = 0;
    while i < ids.len() && ids[i] != id
        invariant
            0 <= i <= ids.len(),
            forall|j: int| 0 <= j < i ==> #[trigger] ids@[j] != id,
        decreases ids.len() - i,
    {
        i += 1;
    }
    proof {
        lemma_place_of_unique(ids@, id, i as int);
    }
    i
}

/// Takes the first `id` out of `ids`.
pub fn forget_id(ids: &mut Vec<WindowID>, id: WindowID)
    ensures
        final(ids)@ == forget(old(ids)@, id),
{
    let i = find_id(ids, id);
    if i < ids.len() {
        ids.remove(i);
    }
}

} // verus!
