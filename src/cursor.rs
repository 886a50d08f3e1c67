use vstd::arithmetic::div_mod::{
    lemma_add_mod_noop, lemma_mod_pos_bound, lemma_mod_self_0, lemma_small_mod,
};
use vstd::prelude::*;

verus! {

/// Abstract state of a [`Cursor`]: the list length, the page size, the
/// scroll-off distance, the selected index and the visible window
/// `[first, end)`.
pub ghost struct CursorView {
    pub len: nat,
    pub page_size: nat,
    pub scroll_off: nat,
    pub index: nat,
    pub first: nat,
    pub end: nat,
}

pub open spec fn min_nat(a: nat, b: nat) -> nat {
    if a <= b {
        a
    } else {
        b
    }
}

impl CursorView {
    /// Index of the last visible row (`-1` for an empty list).
    pub open spec fn last(self) -> int {
        self.end - 1
    }

    pub open spec fn visible_items(self) -> int {
        self.end - self.first
    }

    /// The largest value `first` may take so that a full page stays visible.
    pub open spec fn max_first(self) -> nat {
        if self.len >= self.page_size {
            (self.len - self.page_size) as nat
        } else {
            0
        }
    }

    pub open spec fn wf(self) -> bool {
        &&& self.page_size >= 1
        &&& self.scroll_off == self.page_size / 4
        &&& if self.len == 0 {
            self.index == 0 && self.first == 0 && self.end == 0
        } else {
            &&& self.first <= self.index < self.end <= self.len
            &&& self.end - self.first == min_nat(self.page_size, self.len)
        }
    }

    /// State right after construction.
    pub open spec fn initial(len: nat, page_size: nat) -> CursorView {
        CursorView {
            len,
            page_size,
            scroll_off: page_size / 4,
            index: 0,
            first: 0,
            end: min_nat(page_size, len),
        }
    }

    /// Window whose first row is `first`.
    pub open spec fn window_at(self, index: nat, first: nat) -> CursorView {
        CursorView { index, first, end: min_nat(first + self.page_size, self.len), ..self }
    }

    /// Moves the selection to `i` and scrolls the window so that `scroll_off`
    /// rows stay visible beyond the selection where the list allows it.
    pub open spec fn moved_to(self, i: nat) -> CursorView {
        if i < self.index {
            if i >= self.first + self.scroll_off {
                CursorView { index: i, ..self }
            } else {
                let f: int = i - self.scroll_off;
                let f: nat = if f < 0 { 0 } else { f as nat };
                self.window_at(i, min_nat(f, self.max_first()))
            }
        } else {
            if i + self.scroll_off < self.end {
                CursorView { index: i, ..self }
            } else {
                let f: int = i + self.scroll_off + 1 - self.page_size;
                let f: nat = if f < 0 { 0 } else { f as nat };
                self.window_at(i, min_nat(f, self.max_first()))
            }
        }
    }

    /// Index reached by moving `amount` rows forward, clamping to the last
    /// row first and wrapping to the first row only from the last row.
    pub open spec fn index_forward(self, amount: nat) -> nat {
        if self.index + amount < self.len {
            self.index + amount
        } else if self.index + 1 < self.len {
            (self.len - 1) as nat
        } else {
            0
        }
    }

    /// Index reached by moving `amount` rows backward, clamping to row 0
    /// first and wrapping to the last row only from row 0.
    pub open spec fn index_backward(self, amount: nat) -> nat {
        if self.index > amount {
            (self.index - amount) as nat
        } else if self.index > 0 {
            0
        } else {
            (self.len - 1) as nat
        }
    }

    pub open spec fn down(self) -> CursorView {
        if self.len == 0 {
            self
        } else {
            self.moved_to(self.index_forward(1))
        }
    }

    pub open spec fn up(self) -> CursorView {
        if self.len == 0 {
            self
        } else {
            self.moved_to(self.index_backward(1))
        }
    }

    pub open spec fn page_down(self) -> CursorView {
        if self.len == 0 {
            self
        } else {
            self.moved_to(self.index_forward(self.page_size))
        }
    }

    pub open spec fn page_up(self) -> CursorView {
        if self.len == 0 {
            self
        } else {
            self.moved_to(self.index_backward(self.page_size))
        }
    }

    /// The state after `n` calls of `down`.
    pub open spec fn down_times(self, n: nat) -> CursorView
        decreases n,
    {
        if n == 0 {
            self
        } else {
            self.down_times((n - 1) as nat).down()
        }
    }
}

/// A selection index over a list of `len` rows, with the window of at most
/// `page_size` rows that is on screen.
pub struct Cursor {
    len: usize,
    page_size: usize,
    scroll_off: usize,
    index: usize,
    first: usize,
    end: usize,
}

impl View for Cursor {
    type V = CursorView;

    closed spec fn view(&self) -> CursorView {
        CursorView {
            len: self.len as nat,
            page_size: self.page_size as nat,
            scroll_off: self.scroll_off as nat,
            index: self.index as nat,
            first: self.first as nat,
            end: self.end as nat,
        }
    }
}

proof fn lemma_moved_to_wf(v: CursorView, i: nat)
    requires
        v.wf(),
        v.len > 0,
        i < v.len,
    ensures
        v.moved_to(i).wf(),
{
}

/// Every well-formed cursor over a non-empty list keeps its selection inside
/// the visible window, and the window never holds more than a page.
pub proof fn lemma_window_bounds(v: CursorView)
    requires
        v.wf(),
        v.len >= 1,
    ensures
        v.first <= v.index <= v.last(),
        v.last() - v.first + 1 <= v.page_size,
{
}

/// Every move keeps a cursor well formed.
pub proof fn lemma_moves_keep_wf(v: CursorView)
    requires
        v.wf(),
    ensures
        v.down().wf(),
        v.up().wf(),
        v.page_down().wf(),
        v.page_up().wf(),
{
    if v.len > 0 {
        lemma_moved_to_wf(v, v.index_forward(1));
        lemma_moved_to_wf(v, v.index_backward(1));
        lemma_moved_to_wf(v, v.index_forward(v.page_size));
        lemma_moved_to_wf(v, v.index_backward(v.page_size));
    }
}

/// After `k` steps down the selection has advanced `k` rows, modulo the length.
pub proof fn lemma_down_times_index(v: CursorView, k: nat)
    requires
        v.wf(),
        v.len >= 1,
    ensures
        v.down_times(k).wf(),
        v.down_times(k).len == v.len,
        v.down_times(k).index == ((v.index + k) as int) % (v.len as int),
    decreases k,
{
    let m = v.len as int;
    if k == 0 {
        lemma_small_mod(v.index, v.len);
    } else {
        lemma_down_times_index(v, (k - 1) as nat);
        let w = v.down_times((k - 1) as nat);
        lemma_moved_to_wf(w, w.index_forward(1));
        let a = v.index + k - 1;
        lemma_add_mod_noop(a, 1, m);
        lemma_mod_pos_bound(a, m);
        if m == 1 {
            lemma_mod_self_0(1);
            assert((a + 1) % 1 == 0);
        } else {
            lemma_small_mod(1, v.len);
            if a % m + 1 < m {
                lemma_small_mod((a % m + 1) as nat, v.len);
            } else {
                lemma_mod_self_0(m);
            }
        }
    }
}

/// Stepping down once per row brings the selection back where it started.
pub proof fn lemma_down_cycle(v: CursorView)
    requires
        v.wf(),
        v.len >= 1,
    ensures
        v.down_times(v.len).index == v.index,
{
    let m = v.len as int;
    lemma_down_times_index(v, v.len);
    lemma_add_mod_noop(v.index as int, m, m);
    lemma_mod_self_0(m);
    lemma_small_mod(v.index, v.len);
}

impl Cursor {
    pub fn new(len: usize, page_size: usize) -> (r: Cursor)
        requires
            page_size >= 1,
        ensures
            r@ == CursorView::initial(len as nat, page_size as nat),
            r@.wf(),
            r@.index == 0,
            r@.first == 0,
            r@.visible_items() == min_nat(page_size as nat, len as nat),
    {
        let end = if page_size < len {
            page_size
        } else {
            len
        };
        Cursor { len, page_size, scroll_off: page_size / 4, index: 0, first: 0, end }
    }

    pub fn index(&self) -> (r: usize)
        ensures
            r == self@.index,
    {
        self.index
    }

    pub fn visible_items(&self) -> (r: usize)
        requires
            self@.wf(),
        ensures
            r == self@.visible_items(),
    {
        self.end - self.first
    }

    /// Moves the selection `amount` rows forward or backward and scrolls the
    /// window after it.
    fn go(&mut self, forward: bool, amount: usize)
        requires
            old(self)@.wf(),
            amount >= 1,
        ensures
            final(self)@ == if old(self)@.len == 0 {
                old(self)@
            } else if forward {
                old(self)@.moved_to(old(self)@.index_forward(amount as nat))
            } else {
                old(self)@.moved_to(old(self)@.index_backward(amount as nat))
            },
            final(self)@.wf(),
            final(self)@.len == old(self)@.len,
            final(self)@.page_size == old(self)@.page_size,
            final(self)@.scroll_off == old(self)@.scroll_off,
            final(self)@.len > 0 ==> final(self)@.first <= final(self)@.index <= final(self)@.last()
                <= final(self)@.len - 1,
            final(self)@.len > 0 ==> final(self)@.last() - final(self)@.first + 1 == min_nat(
                final(self)@.page_size,
                final(self)@.len,
            ),
    {
        if self.len == 0 {
            return ;
        }
        let idx = self.index;
        let len = self.len;
        let i: usize = if forward {
            if amount < len - idx {
                idx + amount
            } else if idx < len - 1 {
                len - 1
            } else {
                0
            }
        } else {
            if idx > amount {
                idx - amount
            } else if idx > 0 {
                0
            } else {
                len - 1
            }
        };
        proof {
            lemma_moved_to_wf(old(self)@, i as nat);
        }
        let so = self.scroll_off;
        let page = self.page_size;
        let max_first: usize = if len >= page {
            len - page
        } else {
            0
        };
        let f: usize;
        if i < idx {
            if i >= so && i - so >= self.first {
                self.index = i;
                return ;
            }
            f = if i >= so {
                i - so
            } else {
                0
            };
        } else {
            if i < self.end && self.end - i > so {
                self.index = i;
                return ;
            }
            f = if i + 1 >= page - so {
                i + 1 - (page - so)
            } else {
                0
            };
        }
        let first = if f < max_first {
            f
        } else {
            max_first
        };
        self.index = i;
        self.first = first;
        self.end = if len >= page {
            first + page
        } else {
            len
        };
    }

    pub fn down(&mut self)
        requires
            old(self)@.wf(),
        ensures
            final(self)@ == old(self)@.down(),
            final(self)@.wf(),
            old(self)@.len > 0 && old(self)@.index == old(self)@.len - 1 ==> final(self)@.index
                == 0,
    {
        self.go(true, 1);
    }

    pub fn up(&mut self)
        requires
            old(self)@.wf(),
        ensures
            final(self)@ == old(self)@.up(),
            final(self)@.wf(),
            old(self)@.len > 0 && old(self)@.index == 0 ==> final(self)@.index == old(self)@.len
                - 1,
    {
        self.go(false, 1);
    }

    pub fn page_down(&mut self)
        requires
            old(self)@.wf(),
        ensures
            final(self)@ == old(self)@.page_down(),
            final(self)@.wf(),
            old(self)@.len > 0 && old(self)@.index == old(self)@.len - 1 ==> final(self)@.index
                == 0,
    {
        self.go(true, self.page_size);
    }

    pub fn page_up(&mut self)
        requires
            old(self)@.wf(),
        ensures
            final(self)@ == old(self)@.page_up(),
            final(self)@.wf(),
            old(self)@.len > 0 && old(self)@.index == 0 ==> final(self)@.index == old(self)@.len
                - 1,
    {
        self.go(false, self.page_size);
    }

    /// The visible rows of `items`, in order, each paired with whether it is
    /// the selected one.
    pub fn iter<'a, T>(&self, items: &'a Vec<T>) -> (r: Vec<(bool, &'a T)>)
        requires
            self@.wf(),
        ensures
            r@.len() == if items@.len() > self@.first {
                min_nat(self@.end, items@.len() as nat) - self@.first
            } else {
                0
            },
            forall|j: int|
                0 <= j < r@.len() ==> r@[j].0 == (self@.first + j == self@.index) && *r@[j].1
                    == items@[self@.first + j],
    {
        let mut r: Vec<(bool, &'a T)> = Vec::new();
        let hi = if self.end < items.len() {
            self.end
        } else {
            items.len()
        };
        let mut k = self.first;
        while k < hi
            invariant
                self.first <= k,
                k < hi || k == self.first || k == hi,
                hi == min_nat(self.end as nat, items@.len() as nat),
                hi <= items@.len(),
                r@.len() == k - self.first,
                forall|j: int|
                    0 <= j < r@.len() ==> r@[j].0 == (self@.first + j == self@.index) && *r@[j].1
                        == items@[self@.first + j],
            decreases hi - k,
        {
            r.push((k == self.index, &items[k]));
            k = k + 1;
        }
        r
    }
}

} // verus!
