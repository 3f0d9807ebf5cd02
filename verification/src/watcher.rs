//! Coalescing of change notifications.
//!
//! A write to a log raises several notifications in a row, the server's own
//! writes included. The debouncer keeps one entry per page with the time of
//! its latest notification, and hands a page out for parsing once it has
//! been quiet for a whole window.

use crate::text::str_eq;
use vstd::prelude::*;
use vstd::string::*;

verus! {

/// A page whose log changed, and when it last did (milliseconds).
#[derive(Debug, Clone)]
pub struct Pending {
    pub page: String,
    pub seen: u64,
}

/// A pending page as a mathematical value.
pub struct PendingView {
    pub page: Seq<char>,
    pub seen: u64,
}

impl View for Pending {
    type V = PendingView;

    open spec fn view(&self) -> PendingView {
        PendingView { page: self.page@, seen: self.seen }
    }
}

/// The entries of a list as mathematical values.
pub open spec fn pending_view(entries: Seq<Pending>) -> Seq<PendingView> {
    Seq::new(entries.len(), |i: int| entries[i]@)
}

/// Whether no two entries are for the same page.
pub open spec fn distinct_pages(entries: Seq<PendingView>) -> bool {
    forall|i: int, j: int|
        0 <= i < j < entries.len() ==> (#[trigger] entries[i]).page != (#[trigger] entries[j]).page
}

/// Whether `entries` holds an entry for `page`.
pub open spec fn is_waiting(entries: Seq<PendingView>, page: Seq<char>) -> bool {
    exists|i: int| 0 <= i < entries.len() && (#[trigger] entries[i]).page == page
}

/// The place of the entry for `page`; meant for lists that hold one.
pub open spec fn waiting_index(entries: Seq<PendingView>, page: Seq<char>) -> int {
    choose|i: int| 0 <= i < entries.len() && (#[trigger] entries[i]).page == page
}

/// Whether a page last notified at `seen` has been quiet for a whole
/// `window` at time `now`.
pub open spec fn is_due(entry: PendingView, now: u64, window: u64) -> bool {
    now - entry.seen >= window
}

/// The test for the entries that are due.
pub open spec fn due(now: u64, window: u64) -> spec_fn(PendingView) -> bool {
    |entry: PendingView| is_due(entry, now, window)
}

/// The test for the entries that are not yet due.
pub open spec fn not_due(now: u64, window: u64) -> spec_fn(PendingView) -> bool {
    |entry: PendingView| !is_due(entry, now, window)
}

/// The names of the pages of `entries`, in order.
pub open spec fn page_names(entries: Seq<PendingView>) -> Seq<Seq<char>> {
    Seq::new(entries.len(), |i: int| entries[i].page)
}

/// The names in a list of strings.
pub open spec fn names_view(names: Seq<String>) -> Seq<Seq<char>> {
    Seq::new(names.len(), |i: int| names[i]@)
}

/// Coalesces the change notifications of each page over a window of time.
pub struct Debouncer {
    window: u64,
    waiting: Vec<Pending>,
}

impl Debouncer {
    /// The length of the window, in milliseconds.
    pub closed spec fn window(&self) -> u64 {
        self.window
    }

    /// The pages that wait to be parsed, in the order of their first
    /// notification.
    pub closed spec fn waiting(&self) -> Seq<PendingView> {
        pending_view(self.waiting@)
    }

    /// What every debouncer satisfies: a page waits once.
    #[verifier::type_invariant]
    pub open spec fn wf(&self) -> bool {
        distinct_pages(self.waiting())
    }

    /// A debouncer with a window of `window` milliseconds and no page
    /// waiting.
    pub fn new(window: u64) -> (debouncer: Debouncer)
        ensures
            debouncer.window() == window,
            debouncer.waiting() == Seq::<PendingView>::empty(),
    {
        let debouncer = Debouncer { window, waiting: Vec::new() };
        assert(debouncer.waiting() =~= Seq::<PendingView>::empty());
        debouncer
    }

    /// The place of the entry for `page`, if it waits.
    fn find(&self, page: &str) -> (found: Option<usize>)
        ensures
            match found {
                Some(i) => i < self.waiting().len() && self.waiting()[i as int].page == page@ && is_waiting(
                    self.waiting(),
                    page@,
                ) && waiting_index(self.waiting(), page@) == i,
                None => !is_waiting(self.waiting(), page@),
            },
    {
        let mut i: usize = 0;
        while i < self.waiting.len()
            invariant
                0 <= i <= self.waiting.len(),
                self.waiting().len() == self.waiting.len(),
                forall|k: int| 0 <= k < i ==> (#[trigger] self.waiting()[k]).page != page@,
            decreases self.waiting.len() - i,
        {
            if str_eq(self.waiting[i].page.as_str(), page) {
                proof {
                    use_type_invariant(self);
                    assert(self.waiting()[i as int].page == page@);
                }
                return Some(i);
            }
            i += 1;
        }
        None
    }

    /// Takes note that the log of `page` changed at time `now`
    /// (milliseconds). A page that already waits keeps its place and starts
    /// its window anew.
    pub fn notify(&mut self, page: &str, now: u64)
        ensures
            final(self).window() == old(self).window(),
            final(self).waiting() == if is_waiting(old(self).waiting(), page@) {
                old(self).waiting().update(
                    waiting_index(old(self).waiting(), page@),
                    PendingView { page: page@, seen: now },
                )
            } else {
                old(self).waiting().push(PendingView { page: page@, seen: now })
            },
    {
        proof {
            use_type_invariant(&*self);
        }
        let found = self.find(page);
        let mut waiting: Vec<Pending> = Vec::new();
        std::mem::swap(&mut self.waiting, &mut waiting);
        match found {
            Some(i) => {
                waiting[i].seen = now;
                proof {
                    assert(pending_view(waiting@) =~= old(self).waiting().update(
                        i as int,
                        PendingView { page: page@, seen: now },
                    ));
                }
            },
            None => {
                waiting.push(Pending { page: String::from_str(page), seen: now });
                proof {
                    assert(pending_view(waiting@) =~= old(self).waiting().push(
                        PendingView { page: page@, seen: now },
                    ));
                }
            },
        }
        std::mem::swap(&mut self.waiting, &mut waiting);
    }

    /// Hands out the pages that have been quiet for a whole window at time
    /// `now` (milliseconds), in the order in which they began to wait; the
    /// other pages go on waiting.
    pub fn take_due(&mut self, now: u64) -> (pages: Vec<String>)
        ensures
            final(self).window() == old(self).window(),
            names_view(pages@) == page_names(old(self).waiting().filter(due(now, old(self).window()))),
            final(self).waiting() == old(self).waiting().filter(not_due(now, old(self).window())),
    {
        proof {
            use_type_invariant(&*self);
        }
        let window = self.window;
        let mut waiting: Vec<Pending> = Vec::new();
        std::mem::swap(&mut self.waiting, &mut waiting);
        let ghost before = pending_view(waiting@);
        let mut pages: Vec<String> = Vec::new();
        let mut kept: Vec<Pending> = Vec::new();
        let ghost mut source: Seq<int> = Seq::empty();
        let mut i: usize = 0;
        proof {
            reveal(Seq::filter);
            assert(before.take(0) =~= Seq::<PendingView>::empty());
            assert(pending_view(kept@) =~= Seq::<PendingView>::empty());
            assert(names_view(pages@) =~= page_names(Seq::<PendingView>::empty()));
        }
        while i < waiting.len()
            invariant
                0 <= i <= waiting.len(),
                before == pending_view(waiting@),
                pending_view(kept@) == before.take(i as int).filter(not_due(now, window)),
                names_view(pages@) == page_names(before.take(i as int).filter(due(now, window))),
                source.len() == kept@.len(),
                forall|a: int| 0 <= a < source.len() ==> 0 <= #[trigger] source[a] < i,
                forall|a: int| 0 <= a < source.len() ==> (#[trigger] kept@[a])@ == before[source[a]],
                forall|a: int, b: int| 0 <= a < b < source.len() ==> #[trigger] source[a] < #[trigger] source[b],
            decreases waiting.len() - i,
        {
            let ghost done = before.take(i as int);
            let ghost next = before.take(i + 1);
            proof {
                reveal(Seq::filter);
                assert(next.drop_last() =~= done);
                assert(next.last() == before[i as int]);
                assert(before[i as int] == waiting@[i as int]@);
            }
            let entry = &waiting[i];
            if now >= entry.seen && now - entry.seen >= window {
                let ghost shown = names_view(pages@);
                pages.push(entry.page.clone());
                proof {
                    assert(names_view(pages@) =~= shown.push(before[i as int].page));
                    assert(page_names(next.filter(due(now, window))) =~= page_names(
                        done.filter(due(now, window)),
                    ).push(before[i as int].page));
                }
            } else {
                let ghost shown = pending_view(kept@);
                kept.push(Pending { page: entry.page.clone(), seen: entry.seen });
                proof {
                    source = source.push(i as int);
                    assert(pending_view(kept@) =~= shown.push(before[i as int]));
                }
            }
            i += 1;
        }
        proof {
            assert(before.take(i as int) =~= before);
            assert forall|a: int, b: int| 0 <= a < b < kept@.len() implies (#[trigger] pending_view(
                kept@,
            )[a]).page != (#[trigger] pending_view(kept@)[b]).page by {
                assert(source[a] < source[b]);
                assert(kept@[a]@ == before[source[a]]);
                assert(kept@[b]@ == before[source[b]]);
            }
        }
        std::mem::swap(&mut self.waiting, &mut kept);
        pages
    }

    /// How many pages wait.
    pub fn len(&self) -> (n: usize)
        ensures
            n == self.waiting().len(),
    {
        self.waiting.len()
    }
}

} // verus!
