//! Page presence: which pages have been seen, when, and what they are doing.

use crate::clock::now_millis;
use crate::clock::seconds_of;
use crate::text::str_eq;
use vstd::prelude::*;
use vstd::string::*;

verus! {

/// What a page is doing.
#[derive(Debug, Clone, Copy, PartialEq, Eq, Structural)]
pub enum PageState {
    Idle,
    Executing,
    Failed,
}

/// A browser or worker client that polls for work.
#[derive(Debug, Clone)]
pub struct Page {
    pub name: String,
    pub url: String,
    /// When the page was last heard of, in seconds since the Unix epoch.
    pub last_seen: u64,
    pub state: PageState,
}

/// A page as a mathematical value.
pub struct PageView {
    pub name: Seq<char>,
    pub url: Seq<char>,
    pub last_seen: u64,
    pub state: PageState,
}

impl View for Page {
    type V = PageView;

    open spec fn view(&self) -> PageView {
        PageView { name: self.name@, url: self.url@, last_seen: self.last_seen, state: self.state }
    }
}

impl Page {
    /// A copy of this page.
    pub fn duplicate(&self) -> (copy: Page)
        ensures
            copy@ == self@,
    {
        Page {
            name: self.name.clone(),
            url: self.url.clone(),
            last_seen: self.last_seen,
            state: self.state,
        }
    }
}

/// The pages of a list as mathematical values.
pub open spec fn pages_view(pages: Seq<Page>) -> Seq<PageView> {
    Seq::new(pages.len(), |i: int| pages[i]@)
}

/// Whether no two pages of `pages` share a name.
pub open spec fn distinct_names(pages: Seq<PageView>) -> bool {
    forall|i: int, j: int|
        0 <= i < j < pages.len() ==> (#[trigger] pages[i]).name != (#[trigger] pages[j]).name
}

/// Whether `pages` holds a page of this name.
pub open spec fn has_page(pages: Seq<PageView>, name: Seq<char>) -> bool {
    exists|i: int| 0 <= i < pages.len() && (#[trigger] pages[i]).name == name
}

/// The place of the page of this name in `pages`; meant for lists that hold
/// one.
pub open spec fn page_index(pages: Seq<PageView>, name: Seq<char>) -> int {
    choose|i: int| 0 <= i < pages.len() && (#[trigger] pages[i]).name == name
}

/// Whether a page last seen at `last_seen` has been silent for longer than
/// `ttl` at time `now` (all in seconds).
pub open spec fn stale(page: PageView, now: u64, ttl: u64) -> bool {
    now - page.last_seen > ttl
}

/// A page after it reported `state` at time `now`.
pub open spec fn touched(page: PageView, state: PageState, now: u64) -> PageView {
    PageView { state: state, last_seen: now, ..page }
}

/// The pages after the page `name` was seen at time `now`: the page is
/// registered if it was not, and marked as seen at `now`.
pub open spec fn after_sight(pages: Seq<PageView>, name: Seq<char>, url: Seq<char>, now: u64) -> Seq<
    PageView,
> {
    if has_page(pages, name) {
        let k = page_index(pages, name);
        pages.update(k, PageView { last_seen: now, ..pages[k] })
    } else {
        pages.push(PageView { name: name, url: url, last_seen: now, state: PageState::Idle })
    }
}

/// The test that keeps the pages that are not stale.
pub open spec fn is_fresh(now: u64, ttl: u64) -> spec_fn(PageView) -> bool {
    |page: PageView| !stale(page, now, ttl)
}

/// The registry of pages, in the order in which they were first seen.
pub struct Registry {
    pages: Vec<Page>,
    root: String,
}

impl Registry {
    /// The registered pages, in the order of first sight.
    pub closed spec fn pages(&self) -> Seq<PageView> {
        pages_view(self.pages@)
    }

    /// The directory under which the pages' logs live.
    pub closed spec fn root(&self) -> Seq<char> {
        self.root@
    }

    /// What every registry satisfies: a name is registered once.
    #[verifier::type_invariant]
    pub open spec fn wf(&self) -> bool {
        distinct_names(self.pages())
    }

    /// An empty registry for the logs under `root`.
    pub fn new(root: &str) -> (registry: Registry)
        ensures
            registry.pages() == Seq::<PageView>::empty(),
            registry.root() == root@,
    {
        let registry = Registry { pages: Vec::new(), root: String::from_str(root) };
        assert(registry.pages() =~= Seq::<PageView>::empty());
        registry
    }

    /// The place of the page of this name, if it is registered.
    fn find(&self, name: &str) -> (found: Option<usize>)
        ensures
            match found {
                Some(i) => i < self.pages().len() && self.pages()[i as int].name == name@ && has_page(
                    self.pages(),
                    name@,
                ) && page_index(self.pages(), name@) == i,
                None => !has_page(self.pages(), name@),
            },
    {
        let mut i: usize = 0;
        while i < self.pages.len()
            invariant
                0 <= i <= self.pages.len(),
                self.pages().len() == self.pages.len(),
                forall|k: int| 0 <= k < i ==> (#[trigger] self.pages()[k]).name != name@,
            decreases self.pages.len() - i,
        {
            if str_eq(self.pages[i].name.as_str(), name) {
                proof {
                    use_type_invariant(self);
                    assert(self.pages()[i as int].name == name@);
                }
                return Some(i);
            }
            i += 1;
        }
        None
    }

    /// The page of this name as registered; a name seen for the first time
    /// is registered as idle, with `url`, and as seen at `now` (seconds).
    /// A page that is already registered is returned unchanged: neither its
    /// url nor the time it was last seen is touched.
    pub fn get_or_create_at(&mut self, name: &str, url: &str, now: u64) -> (page: Page)
        ensures
            final(self).root() == old(self).root(),
            if has_page(old(self).pages(), name@) {
                &&& final(self).pages() == old(self).pages()
                &&& page@ == old(self).pages()[page_index(old(self).pages(), name@)]
            } else {
                &&& page@ == (PageView { name: name@, url: url@, last_seen: now, state: PageState::Idle })
                &&& final(self).pages() == old(self).pages().push(page@)
            },
    {
        proof {
            use_type_invariant(&*self);
        }
        match self.find(name) {
            Some(i) => self.pages[i].duplicate(),
            None => {
                let page = Page {
                    name: String::from_str(name),
                    url: String::from_str(url),
                    last_seen: now,
                    state: PageState::Idle,
                };
                let copy = page.duplicate();
                let mut pages: Vec<Page> = Vec::new();
                std::mem::swap(&mut self.pages, &mut pages);
                pages.push(page);
                proof {
                    assert(pages_view(pages@) =~= old(self).pages().push(copy@));
                }
                std::mem::swap(&mut self.pages, &mut pages);
                copy
            },
        }
    }

    /// The page of this name as registered; a name seen for the first time
    /// is registered as idle and as seen at the system clock's reading.
    pub fn get_or_create(&mut self, name: &str, url: &str) -> (page: Page)
        ensures
            final(self).root() == old(self).root(),
            if has_page(old(self).pages(), name@) {
                &&& final(self).pages() == old(self).pages()
                &&& page@ == old(self).pages()[page_index(old(self).pages(), name@)]
            } else {
                &&& page@.name == name@
                &&& page@.url == url@
                &&& page@.state == PageState::Idle
                &&& final(self).pages() == old(self).pages().push(page@)
            },
    {
        let now = seconds_of(now_millis());
        self.get_or_create_at(name, url, now)
    }

    /// Sets the state of the page of this name and marks it as seen at `now`
    /// (seconds). An unknown name changes nothing.
    pub fn update_state_at(&mut self, name: &str, state: PageState, now: u64)
        ensures
            final(self).root() == old(self).root(),
            final(self).pages() == if has_page(old(self).pages(), name@) {
                let k = page_index(old(self).pages(), name@);
                old(self).pages().update(k, touched(old(self).pages()[k], state, now))
            } else {
                old(self).pages()
            },
    {
        proof {
            use_type_invariant(&*self);
        }
        match self.find(name) {
            None => {},
            Some(i) => {
                let mut pages: Vec<Page> = Vec::new();
                std::mem::swap(&mut self.pages, &mut pages);
                pages[i].state = state;
                pages[i].last_seen = now;
                proof {
                    assert(pages_view(pages@) =~= old(self).pages().update(
                        i as int,
                        touched(old(self).pages()[i as int], state, now),
                    ));
                }
                std::mem::swap(&mut self.pages, &mut pages);
            },
        }
    }

    /// Sets the state of the page of this name and marks it as seen at the
    /// system clock's reading. An unknown name changes nothing.
    pub fn update_state(&mut self, name: &str, state: PageState)
        ensures
            final(self).root() == old(self).root(),
            final(self).pages().len() == old(self).pages().len(),
            !has_page(old(self).pages(), name@) ==> final(self).pages() == old(self).pages(),
            has_page(old(self).pages(), name@) ==> exists|now: u64|
                final(self).pages() == old(self).pages().update(
                    page_index(old(self).pages(), name@),
                    #[trigger] touched(
                        old(self).pages()[page_index(old(self).pages(), name@)],
                        state,
                        now,
                    ),
                ),
    {
        let now = seconds_of(now_millis());
        self.update_state_at(name, state, now);
        proof {
            if has_page(old(self).pages(), name@) {
                let k = page_index(old(self).pages(), name@);
                assert(self.pages() == old(self).pages().update(
                    k,
                    touched(old(self).pages()[k], state, now),
                ));
            }
        }
    }

    /// Takes note that the page `name` was seen at time `now` (seconds): a
    /// new page is registered as idle with `url`; a known page keeps its url
    /// and its state, and is marked as seen.
    pub fn upsert_at(&mut self, name: &str, url: &str, now: u64) -> (page: Page)
        ensures
            final(self).root() == old(self).root(),
            final(self).pages() == after_sight(old(self).pages(), name@, url@, now),
            has_page(final(self).pages(), name@),
            page@ == final(self).pages()[page_index(final(self).pages(), name@)],
    {
        let seen = self.get_or_create_at(name, url, now);
        self.update_state_at(name, seen.state, now);
        proof {
            let pages = old(self).pages();
            if has_page(pages, name@) {
                let k = page_index(pages, name@);
                assert(self.pages() =~= after_sight(pages, name@, url@, now));
                assert(self.pages()[k].name == name@);
            } else {
                let added = pages.push(seen@);
                assert(added[pages.len() as int].name == name@);
                assert(has_page(added, name@));
                let k = page_index(added, name@);
                assert(k == pages.len()) by {
                    if k < pages.len() {
                        assert(pages[k].name == name@);
                    }
                }
                assert(self.pages() =~= after_sight(pages, name@, url@, now));
                assert(self.pages()[k].name == name@);
            }
            use_type_invariant(&*self);
            let after = self.pages();
            let at = page_index(after, name@);
            let k = if has_page(pages, name@) {
                page_index(pages, name@)
            } else {
                pages.len() as int
            };
            assert(after[k].name == name@);
            assert(at == k) by {
                if at < k {
                    assert(after[at].name != after[k].name);
                } else if k < at {
                    assert(after[k].name != after[at].name);
                }
            }
        }
        Page { name: seen.name, url: seen.url, last_seen: now, state: seen.state }
    }

    /// Takes note that the page `name` was seen at the system clock's
    /// reading.
    pub fn upsert(&mut self, name: &str, url: &str) -> (page: Page)
        ensures
            final(self).root() == old(self).root(),
            exists|now: u64| final(self).pages() == #[trigger] after_sight(old(self).pages(), name@, url@, now),
            has_page(final(self).pages(), name@),
            page@ == final(self).pages()[page_index(final(self).pages(), name@)],
    {
        let now = seconds_of(now_millis());
        self.upsert_at(name, url, now)
    }

    /// A snapshot of the registered pages, in the order of first sight.
    pub fn list_pages(&self) -> (pages: Vec<Page>)
        ensures
            pages_view(pages@) == self.pages(),
    {
        let mut pages: Vec<Page> = Vec::new();
        let mut i: usize = 0;
        while i < self.pages.len()
            invariant
                0 <= i <= self.pages.len(),
                pages@.len() == i,
                forall|k: int| 0 <= k < i ==> (#[trigger] pages@[k])@ == self.pages@[k]@,
            decreases self.pages.len() - i,
        {
            pages.push(self.pages[i].duplicate());
            i += 1;
        }
        proof {
            assert(pages_view(pages@) =~= self.pages());
        }
        pages
    }

    /// Drops the pages that have been silent for longer than `ttl` at time
    /// `now` (both in seconds); the others stay, in their order.
    pub fn evict_stale(&mut self, now: u64, ttl: u64)
        ensures
            final(self).root() == old(self).root(),
            final(self).pages() == old(self).pages().filter(is_fresh(now, ttl)),
    {
        proof {
            use_type_invariant(&*self);
        }
        let mut pages: Vec<Page> = Vec::new();
        std::mem::swap(&mut self.pages, &mut pages);
        let ghost before = pages_view(pages@);
        let mut kept: Vec<Page> = Vec::new();
        let ghost mut source: Seq<int> = Seq::empty();
        let mut i: usize = 0;
        proof {
            reveal(Seq::filter);
            assert(before.take(0) =~= Seq::<PageView>::empty());
            assert(pages_view(kept@) =~= Seq::<PageView>::empty());
        }
        while i < pages.len()
            invariant
                0 <= i <= pages.len(),
                before == pages_view(pages@),
                pages_view(kept@) == before.take(i as int).filter(is_fresh(now, ttl)),
                source.len() == kept@.len(),
                forall|a: int| 0 <= a < source.len() ==> 0 <= #[trigger] source[a] < i,
                forall|a: int| 0 <= a < source.len() ==> (#[trigger] kept@[a])@ == before[source[a]],
                forall|a: int, b: int| 0 <= a < b < source.len() ==> #[trigger] source[a] < #[trigger] source[b],
            decreases pages.len() - i,
        {
            let ghost done = before.take(i as int);
            let ghost next = before.take(i + 1);
            proof {
                reveal(Seq::filter);
                assert(next.drop_last() =~= done);
                assert(next.last() == before[i as int]);
                assert(before[i as int] == pages@[i as int]@);
            }
            let page = &pages[i];
            if !(now > page.last_seen && now - page.last_seen > ttl) {
                let ghost shown = pages_view(kept@);
                kept.push(page.duplicate());
                proof {
                    source = source.push(i as int);
                    assert(pages_view(kept@) =~= shown.push(before[i as int]));
                }
            }
            i += 1;
        }
        proof {
            assert(before.take(i as int) =~= before);
            assert forall|a: int, b: int| 0 <= a < b < kept@.len() implies (#[trigger] pages_view(
                kept@,
            )[a]).name != (#[trigger] pages_view(kept@)[b]).name by {
                assert(source[a] < source[b]);
                assert(kept@[a]@ == before[source[a]]);
                assert(kept@[b]@ == before[source[b]]);
            }
        }
        std::mem::swap(&mut self.pages, &mut kept);
    }
}

} // verus!
