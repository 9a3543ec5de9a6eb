use vstd::prelude::*;
use crate::fork::{scale, BranchView, ForkView};
use crate::geom::Rect;
use crate::stack::StackView;
use crate::window::{
    index_of, is_index_of, lemma_index_of_exists, lemma_index_of_unique, occurrences, Window,
    WindowID,
};

verus! {

impl Rect {
    /// Whether the pixel at (`px`, `py`) lies in the rectangle.
    pub open spec fn covers(self, px: int, py: int) -> bool {
        self.x <= px < self.x + self.width && self.y <= py < self.y + self.height
    }
}

impl StackView {
    /// The stack has members, one of them is the raised one, and the stack and each
    /// member refer back to the fork `parent` and lie on `workspace`.
    pub open spec fn joined(self, parent: usize, workspace: u32) -> bool {
        &&& self.parent == parent
        &&& self.workspace == workspace
        &&& self.windows.len() > 0
        &&& self.contains(self.active)
        &&& forall|i: int|
            0 <= i < self.windows.len() ==> {
                &&& (#[trigger] self.windows[i]).fork == Some(parent)
                &&& self.windows[i].stack == Some(self.handle)
                &&& self.windows[i].workspace == workspace
            }
    }

    /// The stack and each member lie on `area`.
    pub open spec fn tiled(self, area: Rect) -> bool {
        &&& self.area == area
        &&& forall|i: int| 0 <= i < self.windows.len() ==> (#[trigger] self.windows[i]).rect == area
    }
}

impl BranchView {
    /// Every node of the branch refers back to its parent, the topmost to the fork
    /// `parent`, and lies on `workspace`; every stack has members and a raised one among
    /// them; no fork has a fork as its only branch.
    pub open spec fn joined(self, parent: usize, workspace: u32) -> bool
        decreases self,
    {
        match self {
            BranchView::Window(w) => w.fork == Some(parent) && w.stack is None && w.workspace
                == workspace,
            BranchView::Fork(f) => f.parent == Some(parent) && f.workspace == workspace
                && f.joined(),
            BranchView::Stack(s) => s.joined(parent, workspace),
        }
    }

    /// The branch lies on `area`, and below it every branch lies on the part of its
    /// fork's area that the fork's split gives it.
    pub open spec fn tiled(self, area: Rect) -> bool
        decreases self,
    {
        match self {
            BranchView::Window(w) => w.rect == area,
            BranchView::Fork(f) => f.area == area && f.tiled(),
            BranchView::Stack(s) => s.tiled(area),
        }
    }

    /// How many windows of the branch have `id`.
    pub open spec fn count(self, id: WindowID) -> nat
        decreases self,
    {
        match self {
            BranchView::Window(w) => if w.id == id {
                1
            } else {
                0
            },
            BranchView::Fork(f) => f.count(id),
            BranchView::Stack(s) => occurrences(s.windows, id),
        }
    }
}

impl ForkView {
    /// Every node below the fork refers back to its parent and lies on the fork's
    /// workspace; every stack has members and a raised one among them; no fork has a fork
    /// as its only branch.
    pub open spec fn joined(self) -> bool
        decreases self,
    {
        &&& self.left is Fork ==> self.right is Some
        &&& self.left.joined(self.handle, self.workspace)
        &&& match self.right {
            Some(r) => r.joined(self.handle, self.workspace),
            None => true,
        }
    }

    /// The fork's area is valid and its split lies within its axis; the left branch lies
    /// on what is before the split and the right branch on what is after it; and so on
    /// below.
    pub open spec fn tiled(self) -> bool
        decreases self,
    {
        &&& self.area.valid()
        &&& self.split_handle <= self.axis()
        &&& self.left.tiled(self.left_rect())
        &&& match self.right {
            Some(r) => r.tiled(self.right_rect()),
            None => true,
        }
    }

    /// The fork is well formed: joined and tiled.
    pub open spec fn wf(self) -> bool {
        self.joined() && self.tiled()
    }

    /// How many windows of the fork have `id`.
    pub open spec fn count(self, id: WindowID) -> nat
        decreases self,
    {
        self.left.count(id) + match self.right {
            Some(r) => r.count(id),
            None => 0,
        }
    }
}

/// The two parts that a fork's split gives its branches cover the fork's area, and no
/// pixel lies in both.
pub proof fn lemma_parts_tile(f: ForkView, px: int, py: int)
    requires
        f.area.valid(),
        f.split_handle <= f.axis(),
        f.right is Some,
    ensures
        f.area.covers(px, py) == (f.left_rect().covers(px, py) || f.right_rect().covers(px, py)),
        !(f.left_rect().covers(px, py) && f.right_rect().covers(px, py)),
{
}

/// The left part and the right part are valid rectangles.
pub proof fn lemma_parts_valid(f: ForkView)
    requires
        f.area.valid(),
        f.split_handle <= f.axis(),
    ensures
        f.left_rect().valid(),
        f.right_rect().valid(),
{
}

/// Two lists with the same IDs in the same places have the same index for every ID.
pub proof fn lemma_index_of_by_ids(s: Seq<Window>, t: Seq<Window>, id: WindowID)
    requires
        s.len() == t.len(),
        forall|i: int| 0 <= i < s.len() ==> (#[trigger] s[i]).id == t[i].id,
    ensures
        index_of(s, id) == index_of(t, id),
{
    lemma_index_of_exists(s, id);
    let c = index_of(s, id);
    assert(is_index_of(t, id, c)) by {
        assert forall|j: int| 0 <= j < c implies (#[trigger] t[j]).id != id by {
            assert(s[j].id != id);
        }
        if c < t.len() {
            assert(s[c].id == t[c].id);
        }
    }
    lemma_index_of_unique(t, id, c);
}

/// Two lists with the same IDs in the same places hold every ID equally often.
pub proof fn lemma_occurrences_by_ids(s: Seq<Window>, t: Seq<Window>, id: WindowID)
    requires
        s.len() == t.len(),
        forall|i: int| 0 <= i < s.len() ==> (#[trigger] s[i]).id == t[i].id,
    ensures
        occurrences(s, id) == occurrences(t, id),
    decreases s.len(),
{
    if s.len() > 0 {
        assert(s.last().id == t.last().id);
        assert forall|i: int| 0 <= i < s.drop_last().len() implies (#[trigger] s.drop_last()[i]).id
            == t.drop_last()[i].id by {
            assert(s[i].id == t[i].id);
        }
        lemma_occurrences_by_ids(s.drop_last(), t.drop_last(), id);
    }
}

/// A stack that is laid on an area is tiled on it.
pub proof fn lemma_stack_moved_tiled(s: StackView, area: Rect)
    ensures
        s.moved_to(area).tiled(area),
{
}

/// A stack that is laid on an area stays joined.
pub proof fn lemma_stack_moved_joined(s: StackView, area: Rect, p: usize, ws: u32)
    requires
        s.joined(p, ws),
    ensures
        s.moved_to(area).joined(p, ws),
{
    let t = s.moved_to(area);
    lemma_index_of_by_ids(s.windows, t.windows, s.active);
    assert forall|i: int| 0 <= i < t.windows.len() implies {
        &&& (#[trigger] t.windows[i]).fork == Some(p)
        &&& t.windows[i].stack == Some(t.handle)
        &&& t.windows[i].workspace == ws
    } by {
        assert(s.windows[i].fork == Some(p));
    }
}

/// A stack that is laid on an area keeps its windows.
pub proof fn lemma_stack_moved_count(s: StackView, area: Rect, id: WindowID)
    ensures
        occurrences(s.moved_to(area).windows, id) == occurrences(s.windows, id),
{
    lemma_occurrences_by_ids(s.moved_to(area).windows, s.windows, id);
}

/// A branch that is laid on a valid area is tiled on it.
pub proof fn lemma_branch_retiled_tiled(b: BranchView, area: Rect)
    requires
        area.valid(),
    ensures
        b.retiled(area).tiled(area),
    decreases b,
{
    match b {
        BranchView::Window(w) => {},
        BranchView::Fork(f) => {
            lemma_retiled_tiled(*f, area);
        },
        BranchView::Stack(s) => {
            lemma_stack_moved_tiled(s, area);
        },
    }
}

/// A fork that is laid on a valid area is tiled, and lies on that area.
pub proof fn lemma_retiled_tiled(f: ForkView, area: Rect)
    requires
        area.valid(),
    ensures
        f.retiled(area).tiled(),
        f.retiled(area).area == area,
    decreases f,
{
    let moved = ForkView {
        area,
        split_handle: scale(f.split_handle, f.axis(), f.orientation.axis(area)),
        ..f
    };
    lemma_parts_valid(moved);
    lemma_branch_retiled_tiled(f.left, moved.left_rect());
    match f.right {
        Some(r) => {
            lemma_branch_retiled_tiled(r, moved.right_rect());
        },
        None => {},
    }
    let g = f.retiled(area);
    assert(g.left_rect() == moved.left_rect());
    assert(g.right_rect() == moved.right_rect());
}

/// Laying a branch on an area keeps it joined.
pub proof fn lemma_branch_retiled_joined(b: BranchView, area: Rect, p: usize, ws: u32)
    requires
        b.joined(p, ws),
    ensures
        b.retiled(area).joined(p, ws),
    decreases b,
{
    match b {
        BranchView::Window(w) => {},
        BranchView::Fork(f) => {
            lemma_retiled_joined(*f, area);
        },
        BranchView::Stack(s) => {
            lemma_stack_moved_joined(s, area, p, ws);
        },
    }
}

/// Laying a fork on an area keeps it joined.
pub proof fn lemma_retiled_joined(f: ForkView, area: Rect)
    requires
        f.joined(),
    ensures
        f.retiled(area).joined(),
    decreases f,
{
    let moved = ForkView {
        area,
        split_handle: scale(f.split_handle, f.axis(), f.orientation.axis(area)),
        ..f
    };
    lemma_branch_retiled_joined(f.left, moved.left_rect(), f.handle, f.workspace);
    match f.right {
        Some(r) => {
            lemma_branch_retiled_joined(r, moved.right_rect(), f.handle, f.workspace);
        },
        None => {},
    }
}

/// Laying a branch on an area keeps its windows.
pub proof fn lemma_branch_retiled_count(b: BranchView, area: Rect, id: WindowID)
    ensures
        b.retiled(area).count(id) == b.count(id),
    decreases b,
{
    match b {
        BranchView::Window(w) => {},
        BranchView::Fork(f) => {
            lemma_retiled_count(*f, area, id);
        },
        BranchView::Stack(s) => {
            lemma_stack_moved_count(s, area, id);
        },
    }
}

/// Laying a fork on an area keeps its windows.
pub proof fn lemma_retiled_count(f: ForkView, area: Rect, id: WindowID)
    ensures
        f.retiled(area).count(id) == f.count(id),
    decreases f,
{
    let moved = ForkView {
        area,
        split_handle: scale(f.split_handle, f.axis(), f.orientation.axis(area)),
        ..f
    };
    lemma_branch_retiled_count(f.left, moved.left_rect(), id);
    match f.right {
        Some(r) => {
            lemma_branch_retiled_count(r, moved.right_rect(), id);
        },
        None => {},
    }
}

/// A split that lies within an axis is the same after it is carried over to the same axis.
pub proof fn lemma_scale_same(split: u32, axis: u32)
    requires
        split <= axis,
    ensures
        scale(split, axis, axis) == split,
{
    if axis != 0 {
        assert((axis * split) / (axis as int) == split) by (nonlinear_arith)
            requires
                axis > 0,
        ;
    }
}

/// A tiled branch stays as it is when it is laid on its area again.
pub proof fn lemma_branch_retiled_same(b: BranchView, area: Rect)
    requires
        b.tiled(area),
    ensures
        b.retiled(area) == b,
    decreases b,
{
    match b {
        BranchView::Window(w) => {},
        BranchView::Fork(f) => {
            lemma_retiled_same(*f);
        },
        BranchView::Stack(s) => {
            assert(s.moved_to(area).windows =~= s.windows);
        },
    }
}

/// A tiled fork stays as it is when it is laid on its area again.
pub proof fn lemma_retiled_same(f: ForkView)
    requires
        f.tiled(),
    ensures
        f.retiled(f.area) == f,
    decreases f,
{
    lemma_scale_same(f.split_handle, f.axis());
    lemma_branch_retiled_same(f.left, f.left_rect());
    match f.right {
        Some(r) => {
            lemma_branch_retiled_same(r, f.right_rect());
        },
        None => {},
    }
}

/// A window with `id` at an index of a list puts the ID's index at or before it.
pub proof fn lemma_index_of_witness(s: Seq<Window>, id: WindowID, k: int)
    requires
        0 <= k < s.len(),
        s[k].id == id,
    ensures
        index_of(s, id) <= k,
{
    lemma_index_of_exists(s, id);
    if index_of(s, id) > k {
        assert(s[k].id != id);
    }
}

/// Showing and hiding the members of a stack leaves it joined and tiled.
pub proof fn lemma_viewed_joined(s: StackView, on_view: bool, p: usize, ws: u32, area: Rect)
    ensures
        s.joined(p, ws) ==> s.viewed(on_view).joined(p, ws),
        s.tiled(area) ==> s.viewed(on_view).tiled(area),
{
    let t = s.viewed(on_view);
    lemma_index_of_by_ids(s.windows, t.windows, s.active);
    if s.joined(p, ws) {
        assert forall|j: int| 0 <= j < t.windows.len() implies {
            &&& (#[trigger] t.windows[j]).fork == Some(p)
            &&& t.windows[j].stack == Some(t.handle)
            &&& t.windows[j].workspace == ws
        } by {
            assert(s.windows[j].fork == Some(p));
        }
    }
    if s.tiled(area) {
        assert forall|j: int| 0 <= j < t.windows.len() implies (#[trigger] t.windows[j]).rect
            == area by {
            assert(s.windows[j].rect == area);
        }
    }
}

/// A stack that stays with members when it loses one stays joined and tiled.
pub proof fn lemma_without_joined(s: StackView, id: WindowID, p: usize, ws: u32, area: Rect)
    requires
        s.joined(p, ws),
        s.without(id).windows.len() > 0,
    ensures
        s.without(id).joined(p, ws),
        s.tiled(area) ==> s.without(id).tiled(area),
        s.without(id).handle == s.handle,
        s.without(id).area == s.area,
{
    let t = s.shed(id);
    let i = index_of(s.windows, id);
    lemma_index_of_exists(s.windows, id);
    lemma_index_of_exists(s.windows, s.active);
    if i < s.windows.len() {
        let rest = s.windows.remove(i);
        assert forall|j: int| 0 <= j < rest.len() implies {
            &&& (#[trigger] rest[j]).fork == Some(p)
            &&& rest[j].stack == Some(s.handle)
            &&& rest[j].workspace == ws
            &&& (s.tiled(area) ==> rest[j].rect == area)
        } by {
            if j < i {
                assert(rest[j] == s.windows[j]);
            } else {
                assert(rest[j] == s.windows[j + 1]);
            }
        }
        if s.active == id {
            if i < rest.len() {
                lemma_index_of_witness(rest, rest[i].id, i);
            } else {
                lemma_index_of_witness(rest, rest[i - 1].id, i - 1);
            }
        } else {
            let a = index_of(s.windows, s.active);
            if a < i {
                assert(rest[a] == s.windows[a]);
                lemma_index_of_witness(rest, s.active, a);
            } else {
                assert(rest[a - 1] == s.windows[a]);
                lemma_index_of_witness(rest, s.active, a - 1);
            }
        }
    }
    assert(t.joined(p, ws));
    lemma_viewed_joined(t, s.windows[i].visible, p, ws, area);
}

/// A joined stack stays joined when a window is appended to it.
pub proof fn lemma_with_member_joined(s: StackView, n: Window, p: usize, ws: u32)
    requires
        s.joined(p, ws),
    ensures
        s.with_member(n).joined(p, ws),
{
    let t = s.with_member(n);
    lemma_index_of_exists(s.windows, s.active);
    let a = index_of(s.windows, s.active);
    assert(t.windows[a] == s.windows[a]);
    lemma_index_of_witness(t.windows, s.active, a);
    assert forall|j: int| 0 <= j < t.windows.len() implies {
        &&& (#[trigger] t.windows[j]).fork == Some(p)
        &&& t.windows[j].stack == Some(t.handle)
        &&& t.windows[j].workspace == ws
    } by {
        if j < s.windows.len() {
            assert(t.windows[j] == s.windows[j]);
        }
    }
}

/// A stack around one window is joined and tiled where the window lay.
pub proof fn lemma_around_joined(handle: usize, w: Window, p: usize)
    ensures
        StackView::around(handle, w, p).joined(p, w.workspace),
        StackView::around(handle, w, p).tiled(w.rect),
{
    let s = StackView::around(handle, w, p);
    lemma_index_of_witness(s.windows, w.id, 0);
}

/// A joined stack stays joined and tiled when one of its members is raised.
pub proof fn lemma_raised_joined(s: StackView, id: WindowID, p: usize, ws: u32, area: Rect)
    requires
        s.joined(p, ws),
        s.contains(id),
    ensures
        s.raised(id).joined(p, ws),
        s.tiled(area) ==> s.raised(id).tiled(area),
{
    let t = s.raised(id);
    lemma_index_of_by_ids(s.windows, t.windows, id);
    assert forall|j: int| 0 <= j < t.windows.len() implies {
        &&& (#[trigger] t.windows[j]).fork == Some(p)
        &&& t.windows[j].stack == Some(t.handle)
        &&& t.windows[j].workspace == ws
        &&& (s.tiled(area) ==> t.windows[j].rect == area)
    } by {
        assert(s.windows[j].fork == Some(p));
    }
}

/// A joined stack stays joined and tiled when its raised member changes places with a
/// neighbour.
pub proof fn lemma_shifted_joined(s: StackView, p: usize, ws: u32, area: Rect)
    requires
        s.joined(p, ws),
    ensures
        s.moved_left().joined(p, ws),
        s.moved_right().joined(p, ws),
        s.tiled(area) ==> s.moved_left().tiled(area) && s.moved_right().tiled(area),
{
    let i = index_of(s.windows, s.active);
    lemma_index_of_exists(s.windows, s.active);
    let l = s.moved_left();
    let r = s.moved_right();
    if 0 < i < s.windows.len() {
        lemma_index_of_witness(l.windows, s.active, i - 1);
    }
    if i + 1 < s.windows.len() {
        lemma_index_of_witness(r.windows, s.active, i + 1);
    }
    assert forall|j: int| 0 <= j < l.windows.len() implies {
        &&& (#[trigger] l.windows[j]).fork == Some(p)
        &&& l.windows[j].stack == Some(l.handle)
        &&& l.windows[j].workspace == ws
        &&& (s.tiled(area) ==> l.windows[j].rect == area)
    } by {
        if 0 < i < s.windows.len() {
            if j == i {
                assert(l.windows[j] == s.windows[i - 1]);
            } else if j == i - 1 {
                assert(l.windows[j] == s.windows[i]);
            } else {
                assert(l.windows[j] == s.windows[j]);
            }
        }
    }
    assert forall|j: int| 0 <= j < r.windows.len() implies {
        &&& (#[trigger] r.windows[j]).fork == Some(p)
        &&& r.windows[j].stack == Some(r.handle)
        &&& r.windows[j].workspace == ws
        &&& (s.tiled(area) ==> r.windows[j].rect == area)
    } by {
        if i + 1 < s.windows.len() {
            if j == i {
                assert(r.windows[j] == s.windows[i + 1]);
            } else if j == i + 1 {
                assert(r.windows[j] == s.windows[i]);
            } else {
                assert(r.windows[j] == s.windows[j]);
            }
        }
    }
}

/// A joined stack is joined under the fork that adopts it, and stays tiled.
pub proof fn lemma_adopted_joined(s: StackView, parent: usize, p: usize, ws: u32, area: Rect)
    requires
        s.joined(p, ws),
    ensures
        s.adopted(parent).joined(parent, ws),
        s.tiled(area) ==> s.adopted(parent).tiled(area),
{
    let t = s.adopted(parent);
    lemma_index_of_by_ids(s.windows, t.windows, s.active);
    assert forall|j: int| 0 <= j < t.windows.len() implies {
        &&& (#[trigger] t.windows[j]).fork == Some(parent)
        &&& t.windows[j].stack == Some(t.handle)
        &&& t.windows[j].workspace == ws
        &&& (s.tiled(area) ==> t.windows[j].rect == area)
    } by {
        assert(s.windows[j].fork == Some(p));
    }
}

} // verus!
