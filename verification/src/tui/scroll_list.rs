use vstd::prelude::*;

verus! {

/// Pure navigation state for a scrollable list — no rendering logic.
///
/// Both the task browser and the project browser use this to avoid
/// duplicating wrap-around index management.
pub struct ScrollList {
    selected: Option<usize>,
    count: usize,
}

/// Mathematical model of a scroll list: the selection and the item count.
pub struct ScrollListView {
    pub selected: Option<nat>,
    pub count: nat,
}

impl View for ScrollList {
    type V = ScrollListView;

    closed spec fn view(&self) -> ScrollListView {
        ScrollListView {
            selected: match self.selected {
                Some(i) => Some(i as nat),
                None => None,
            },
            count: self.count as nat,
        }
    }
}

/// A scroll list is well formed when something is selected exactly when the
/// list has items, and the selection is one of them.
pub open spec fn well_formed(v: ScrollListView) -> bool {
    match v.selected {
        Some(i) => i < v.count,
        None => v.count == 0,
    }
}

/// The selection after moving up: the previous item, the last one from the
/// first; nothing changes on an empty list.
pub open spec fn after_up(v: ScrollListView) -> ScrollListView {
    if v.count == 0 {
        v
    } else {
        let i = match v.selected {
            Some(i) => i,
            None => 0,
        };
        ScrollListView {
            selected: Some(if i == 0 { (v.count - 1) as nat } else { (i - 1) as nat }),
            count: v.count,
        }
    }
}

/// The selection after moving down: the next item, the first one from the
/// last; nothing changes on an empty list.
pub open spec fn after_down(v: ScrollListView) -> ScrollListView {
    if v.count == 0 {
        v
    } else {
        let i = match v.selected {
            Some(i) => i,
            None => 0,
        };
        ScrollListView { selected: Some((((i + 1) as int) % (v.count as int)) as nat), count: v.count }
    }
}

impl ScrollList {
    #[verifier::type_invariant]
    spec fn inv(self) -> bool {
        match self.selected {
            Some(i) => i < self.count,
            None => self.count == 0,
        }
    }

    /// A list of `count` items with the first one selected (nothing selected
    /// when the list is empty).
    pub fn new(count: usize) -> (s: Self)
        ensures
            s@.count == count,
            s@.selected == (if count > 0 { Some(0nat) } else { None::<nat> }),
            well_formed(s@),
    {
        ScrollList { selected: if count > 0 { Some(0) } else { None }, count }
    }

    /// The selected index, if any.
    pub fn selected(&self) -> (r: Option<usize>)
        ensures
            match r {
                Some(i) => self@.selected == Some(i as nat),
                None => self@.selected is None,
            },
            well_formed(self@),
    {
        proof {
            use_type_invariant(self);
        }
        self.selected
    }

    /// Move selection up by one, wrapping from the first item to the last.
    pub fn move_up(&mut self)
        ensures
            final(self)@ == after_up(old(self)@),
            well_formed(final(self)@),
    {
        proof {
            use_type_invariant(&*self);
        }
        if self.count == 0 {
            return;
        }
        let i = match self.selected {
            Some(i) => i,
            None => 0,
        };
        self.selected = Some(if i == 0 { self.count - 1 } else { i - 1 });
    }

    /// Move selection down by one, wrapping from the last item to the first.
    pub fn move_down(&mut self)
        ensures
            final(self)@ == after_down(old(self)@),
            well_formed(final(self)@),
    {
        proof {
            use_type_invariant(&*self);
        }
        if self.count == 0 {
            return;
        }
        let i = match self.selected {
            Some(i) => i,
            None => 0,
        };
        self.selected = Some((i + 1) % self.count);
    }
}

/// Moving up and moving down keep a scroll list well formed.
pub proof fn lemma_moves_keep_well_formed(v: ScrollListView)
    requires
        well_formed(v),
    ensures
        well_formed(after_up(v)),
        well_formed(after_down(v)),
{
}

/// Moving down undoes moving up, and moving up undoes moving down.
pub proof fn lemma_up_down_inverse(v: ScrollListView)
    requires
        well_formed(v),
    ensures
        after_down(after_up(v)) == v,
        after_up(after_down(v)) == v,
{
    if v.count > 0 {
        let c = v.count as int;
        let i = v.selected->0 as int;
        if i + 1 < c {
            vstd::arithmetic::div_mod::lemma_small_mod((i + 1) as nat, c as nat);
        } else {
            vstd::arithmetic::div_mod::lemma_mod_self_0(c);
        }
        let j = if i == 0 { c - 1 } else { i - 1 };
        if j + 1 < c {
            vstd::arithmetic::div_mod::lemma_small_mod((j + 1) as nat, c as nat);
        } else {
            vstd::arithmetic::div_mod::lemma_mod_self_0(c);
        }
    }
}

/// The selection after `n` moves down.
pub open spec fn after_downs(v: ScrollListView, n: nat) -> ScrollListView
    decreases n,
{
    if n == 0 {
        v
    } else {
        after_down(after_downs(v, (n - 1) as nat))
    }
}

/// `n` moves down from item `i` land on item `(i + n) mod count`.
pub proof fn lemma_downs_advance(v: ScrollListView, n: nat)
    requires
        well_formed(v),
        v.count > 0,
    ensures
        after_downs(v, n).count == v.count,
        after_downs(v, n).selected == Some((((v.selected->0 + n) as int) % (v.count as int)) as nat),
    decreases n,
{
    if n > 0 {
        lemma_downs_advance(v, (n - 1) as nat);
        let c = v.count as int;
        let i = v.selected->0 as int;
        let prev = after_downs(v, (n - 1) as nat);
        assert(prev.selected->0 == (i + (n - 1)) % c);
        vstd::arithmetic::div_mod::lemma_add_mod_noop_right(1, i + (n - 1), c);
        assert(((prev.selected->0 + 1) as int) % c == (i + n) % c);
    } else {
        vstd::arithmetic::div_mod::lemma_small_mod(v.selected->0, v.count);
    }
}

/// Moving down as many times as the list has items comes back to the same
/// item: the list wraps around.
pub proof fn lemma_full_cycle(v: ScrollListView)
    requires
        well_formed(v),
    ensures
        after_downs(v, v.count) == v,
{
    if v.count > 0 {
        lemma_downs_advance(v, v.count);
        let c = v.count as int;
        let i = v.selected->0 as int;
        assert((i + c) % c == i) by {
            vstd::arithmetic::div_mod::lemma_mod_add_multiples_vanish(i, c);
            vstd::arithmetic::div_mod::lemma_small_mod(i as nat, c as nat);
        }
    } else {
        assert(after_downs(v, 0) == v);
    }
}

} // verus!
