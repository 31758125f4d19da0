//! The pagination controller: walks the result pages of a source, scope by
//! scope, decides when a scope's pages are exhausted, and hands out the
//! listings that still need fetching.
//!
//! The controller makes decisions only. The caller asks it for the next
//! action, performs it (persisting the cursor and loading a page, or fetching
//! and persisting a listing), and reports what happened.

use crate::ledger::{lemma_unseen_shape, unseen, DedupLedger};
use crate::text::{decimal_digits, decimal_value, is_decimal, parse_u32, same_texts, texts};
use vstd::prelude::*;

verus! {

/// How a source signals that a scope has no more pages.
#[derive(Clone, Copy, Debug, PartialEq, Eq, Structural)]
pub enum StopRule {
    /// The source wraps around at the end of its results: a page whose
    /// identifiers equal those of the page before ends the scope.
    RepeatedPage,
    /// The source says so: it shows a "no results" marker, or reports a
    /// current page other than the one requested.
    Marker,
}

/// What was read from a result page.
#[derive(Clone, Debug)]
pub struct PageReport {
    /// The listing identifiers on the page, in order (empty when loading the
    /// page timed out).
    pub ids: Vec<String>,
    /// The source showed its "no results" marker.
    pub no_results: bool,
    /// The page number the source reports showing, where it reports one.
    pub reported_page: Option<u32>,
}

/// The next thing the caller should do.
#[derive(Clone, Debug, PartialEq, Eq)]
pub enum CrawlAction {
    /// Persist the cursor `(scope, page)`, then load that page and report it.
    FetchPage { scope: String, page: u32 },
    /// Fetch the listing `id`, persist it, then report whether that worked.
    FetchListing { id: String },
    /// Every scope is done.
    Finished,
}

/// The controller's state as mathematical values.
pub struct CrawlView {
    pub rule: StopRule,
    pub scopes: Seq<Seq<char>>,
    /// Index of the current scope; `scopes.len()` once all are done.
    pub scope: nat,
    /// The next page of the current scope to load.
    pub page: nat,
    /// The identifiers of the page loaded before, in this scope.
    pub previous: Seq<Seq<char>>,
    /// Identifiers of the last page loaded that are still to be fetched.
    pub pending: Seq<Seq<char>>,
    /// The dedup ledger.
    pub ledger: Seq<Seq<char>>,
}

/// The controller waits for a page: no listing is pending and a scope is left.
pub open spec fn awaiting_page(v: CrawlView) -> bool {
    v.pending.len() == 0 && v.scope < v.scopes.len()
}

/// `action` is what the controller in state `v` asks for next.
pub open spec fn is_next_action(v: CrawlView, action: CrawlAction) -> bool {
    if v.pending.len() > 0 {
        action matches CrawlAction::FetchListing { id } && id@ == v.pending[0]
    } else if v.scope < v.scopes.len() {
        action matches CrawlAction::FetchPage { scope, page } && scope@ == v.scopes[v.scope as int]
            && page as nat == v.page
    } else {
        action is Finished
    }
}

/// Whether a loaded page ends its scope under `rule`.
pub open spec fn page_ends_scope(
    rule: StopRule,
    previous: Seq<Seq<char>>,
    page: nat,
    ids: Seq<Seq<char>>,
    no_results: bool,
    reported_page: Option<u32>,
) -> bool {
    match rule {
        StopRule::RepeatedPage => ids == previous,
        StopRule::Marker => no_results || (reported_page matches Some(p) && p as nat != page),
    }
}

/// The state after the current scope ends: the next scope, from page 1.
pub open spec fn next_scope(v: CrawlView) -> CrawlView {
    CrawlView { scope: v.scope + 1, page: 1, previous: Seq::empty(), ..v }
}

/// The state after a page with identifiers `ids` and the given markers was loaded.
pub open spec fn after_page(
    v: CrawlView,
    ids: Seq<Seq<char>>,
    no_results: bool,
    reported_page: Option<u32>,
) -> CrawlView {
    if !awaiting_page(v) {
        v
    } else if page_ends_scope(v.rule, v.previous, v.page, ids, no_results, reported_page) {
        next_scope(v)
    } else if v.page < u32::MAX {
        CrawlView { page: v.page + 1, previous: ids, pending: unseen(v.ledger, ids), ..v }
    } else {
        CrawlView { pending: unseen(v.ledger, ids), ..next_scope(v) }
    }
}

/// The state after loading a page failed: the scope is abandoned.
pub open spec fn after_page_failure(v: CrawlView) -> CrawlView {
    if !awaiting_page(v) {
        v
    } else {
        next_scope(v)
    }
}

/// The state after the pending listing was persisted: it is recorded.
pub open spec fn after_listing_stored(v: CrawlView) -> CrawlView {
    if v.pending.len() == 0 {
        v
    } else {
        CrawlView { pending: v.pending.drop_first(), ledger: v.ledger.push(v.pending[0]), ..v }
    }
}

/// The state after the pending listing could not be fetched: it is skipped.
pub open spec fn after_listing_failure(v: CrawlView) -> CrawlView {
    if v.pending.len() == 0 {
        v
    } else {
        CrawlView { pending: v.pending.drop_first(), ..v }
    }
}

/// Under the repeated-page rule, a page whose identifiers equal those of the
/// page before ends its scope: the next page of that scope is never requested,
/// the crawl moves to page 1 of the next scope, and nothing of the repeated
/// page is fetched.
pub proof fn lemma_repeated_page_ends_scope(
    v: CrawlView,
    ids: Seq<Seq<char>>,
    no_results: bool,
    reported_page: Option<u32>,
)
    requires
        v.rule == StopRule::RepeatedPage,
        awaiting_page(v),
        ids == v.previous,
    ensures
        after_page(v, ids, no_results, reported_page).scope == v.scope + 1,
        after_page(v, ids, no_results, reported_page).page == 1,
        after_page(v, ids, no_results, reported_page).pending.len() == 0,
        after_page(v, ids, no_results, reported_page).ledger == v.ledger,
{
}

/// A failed page load and a page that ends its scope lead to the same state:
/// the next scope, from page 1, with nothing pending. So a caller whose page
/// load failed need not look at the page's end-of-results markers.
pub proof fn lemma_failure_same_as_end(
    v: CrawlView,
    ids: Seq<Seq<char>>,
    no_results: bool,
    reported_page: Option<u32>,
)
    requires
        awaiting_page(v),
        page_ends_scope(v.rule, v.previous, v.page, ids, no_results, reported_page),
    ensures
        after_page_failure(v) == after_page(v, ids, no_results, reported_page),
{
}

/// Where a crawl stands: a scope and the page of it about to be loaded.
#[derive(Clone, Debug, PartialEq, Eq)]
pub struct CrawlCursor {
    pub scope: String,
    pub page: u32,
}

/// The text of a cursor file: the scope on the first line, the page on the second.
pub open spec fn cursor_text(scope: Seq<char>, page: nat) -> Seq<char> {
    scope.push('\n') + decimal_digits(page)
}

/// The cursor that the lines of a cursor file describe: the scope on the first
/// line and the page number, at least 1, on the last.
pub open spec fn cursor_of_lines(lines: Seq<Seq<char>>) -> Option<(Seq<char>, nat)> {
    if lines.len() >= 2 && is_decimal(lines.last()) && 1 <= decimal_value(lines.last())
        <= u32::MAX {
        Some((lines[0], decimal_value(lines.last())))
    } else {
        None
    }
}

impl CrawlCursor {
    /// Reads a cursor from the lines of a cursor file. A file with fewer than
    /// two lines, or whose last line is not a page number from 1 up, holds none.
    pub fn from_lines(lines: &Vec<String>) -> (r: Option<CrawlCursor>)
        ensures
            r matches Some(c) ==> cursor_of_lines(texts(lines@)) == Some((c.scope@, c.page as nat)),
            r is None ==> cursor_of_lines(texts(lines@)) is None,
    {
        if lines.len() < 2 {
            return None;
        }
        let last = &lines[lines.len() - 1];
        assert(texts(lines@).last() == last@);
        assert(texts(lines@)[0] == lines@[0]@);
        match parse_u32(last.as_str()) {
            Some(page) => {
                if page == 0 {
                    None
                } else {
                    Some(CrawlCursor { scope: lines[0].clone(), page })
                }
            },
            None => None,
        }
    }

    /// The text of the cursor file for this cursor.
    pub fn to_text(&self) -> (r: String)
        ensures
            r@ == cursor_text(self.scope@, self.page as nat),
    {
        let s = self.scope.clone();
        let mut line = s.concat("\n");
        proof {
            reveal_strlit("\n");
        }
        let page = crate::text::decimal_text(self.page);
        line.append(page.as_str());
        assert(line@ =~= cursor_text(self.scope@, self.page as nat));
        line
    }
}

/// Writing a cursor file and reading its two lines back gives the same cursor.
pub proof fn lemma_cursor_round_trip(scope: Seq<char>, page: nat)
    requires
        1 <= page <= u32::MAX,
    ensures
        cursor_of_lines(seq![scope, decimal_digits(page)]) == Some((scope, page)),
{
    crate::text::lemma_decimal_round_trip(page);
    assert(seq![scope, decimal_digits(page)].last() == decimal_digits(page));
}

/// The cursor names a page from 1 up of one of `scopes`.
pub open spec fn resumes_at(cursor: Option<CrawlCursor>, scopes: Seq<Seq<char>>) -> bool {
    cursor matches Some(c) && c.page >= 1 && scopes.contains(c.scope@)
}

/// The pagination controller of one source.
pub struct PaginationController {
    rule: StopRule,
    scopes: Vec<String>,
    scope: usize,
    page: u32,
    previous: Vec<String>,
    work: Vec<String>,
    next_work: usize,
    ledger: DedupLedger,
}

impl PaginationController {
    pub closed spec fn view(&self) -> CrawlView {
        CrawlView {
            rule: self.rule,
            scopes: texts(self.scopes@),
            scope: self.scope as nat,
            page: self.page as nat,
            previous: texts(self.previous@),
            pending: texts(self.work@).skip(self.next_work as int),
            ledger: self.ledger.entries(),
        }
    }

    /// The controller's invariant: the ledger holds no identifier twice, and
    /// the pending identifiers are distinct, non-empty and not yet recorded.
    pub closed spec fn wf(&self) -> bool {
        let v = self.view();
        &&& self.ledger.wf()
        &&& self.next_work <= self.work.len()
        &&& v.ledger.no_duplicates()
        &&& v.pending.no_duplicates()
        &&& forall|x: Seq<char>| #[trigger]
            v.pending.contains(x) ==> x.len() > 0 && !v.ledger.contains(x)
        &&& v.scope <= v.scopes.len()
        &&& 1 <= v.page <= u32::MAX
    }

    /// A controller at the first page of the first scope. `scopes` are the
    /// sub-partitions of the source walked in order (one scope for a source
    /// without any); `ledger` holds the identifiers persisted in earlier runs.
    pub fn new(rule: StopRule, scopes: Vec<String>, ledger: DedupLedger) -> (r: PaginationController)
        requires
            ledger.wf(),
        ensures
            r.wf(),
            r.view() == (CrawlView {
                rule,
                scopes: texts(scopes@),
                scope: 0,
                page: 1,
                previous: Seq::empty(),
                pending: Seq::empty(),
                ledger: ledger.entries(),
            }),
    {
        PaginationController::start_at(rule, scopes, 0, 1, ledger)
    }

    fn start_at(rule: StopRule, scopes: Vec<String>, scope: usize, page: u32, ledger: DedupLedger) -> (r: PaginationController)
        requires
            ledger.wf(),
            scope <= scopes.len(),
            page >= 1,
        ensures
            r.wf(),
            r.view() == (CrawlView {
                rule,
                scopes: texts(scopes@),
                scope: scope as nat,
                page: page as nat,
                previous: Seq::empty(),
                pending: Seq::empty(),
                ledger: ledger.entries(),
            }),
    {
        let r = PaginationController {
            rule,
            scopes,
            scope,
            page,
            previous: Vec::new(),
            work: Vec::new(),
            next_work: 0,
            ledger,
        };
        assert(r.view().previous =~= Seq::<Seq<char>>::empty());
        assert(r.view().pending =~= Seq::<Seq<char>>::empty());
        r
    }

    /// A controller that resumes where a cursor says an earlier run stood: at
    /// the cursor's page of the first scope named as in the cursor. Without a
    /// cursor, or with one naming no scope of `scopes`, it starts afresh.
    pub fn resume(
        rule: StopRule,
        scopes: Vec<String>,
        cursor: Option<CrawlCursor>,
        ledger: DedupLedger,
    ) -> (r: PaginationController)
        requires
            ledger.wf(),
        ensures
            r.wf(),
            r.view().rule == rule,
            r.view().scopes == texts(scopes@),
            r.view().previous == Seq::<Seq<char>>::empty(),
            r.view().pending == Seq::<Seq<char>>::empty(),
            r.view().ledger == ledger.entries(),
            resumes_at(cursor, texts(scopes@)) ==> {
                let c = cursor->0;
                &&& r.view().scopes[r.view().scope as int] == c.scope@
                &&& forall|k: int| 0 <= k < r.view().scope ==> texts(scopes@)[k] != c.scope@
                &&& r.view().page == c.page as nat
            },
            !resumes_at(cursor, texts(scopes@)) ==> r.view().scope == 0 && r.view().page == 1,
    {
        match cursor {
            Some(c) => {
                if c.page >= 1 {
                    let mut k: usize = 0;
                    while k < scopes.len()
                        invariant
                            k <= scopes.len(),
                            c.page >= 1,
                            cursor == Some(c),
                            ledger.wf(),
                            forall|j: int| 0 <= j < k ==> texts(scopes@)[j] != c.scope@,
                        decreases scopes.len() - k,
                    {
                        if scopes[k] == c.scope {
                            assert(texts(scopes@)[k as int] == c.scope@);
                            assert(texts(scopes@).contains(c.scope@));
                            let r = PaginationController::start_at(rule, scopes, k, c.page, ledger);
                            return r;
                        }
                        k = k + 1;
                    }
                    assert(!texts(scopes@).contains(c.scope@));
                }
                PaginationController::start_at(rule, scopes, 0, 1, ledger)
            },
            None => PaginationController::start_at(rule, scopes, 0, 1, ledger),
        }
    }

    /// The next thing to do.
    pub fn next_action(&self) -> (r: CrawlAction)
        requires
            self.wf(),
        ensures
            is_next_action(self.view(), r),
    {
        if self.next_work < self.work.len() {
            assert(self.view().pending[0] == self.work@[self.next_work as int]@);
            CrawlAction::FetchListing { id: self.work[self.next_work].clone() }
        } else if self.scope < self.scopes.len() {
            assert(self.view().pending.len() == 0);
            assert(texts(self.scopes@)[self.scope as int] == self.scopes@[self.scope as int]@);
            CrawlAction::FetchPage { scope: self.scopes[self.scope].clone(), page: self.page }
        } else {
            CrawlAction::Finished
        }
    }

    /// Leaves the current scope for the next one, from page 1.
    fn advance_scope(&mut self)
        requires
            old(self).wf(),
            old(self).view().scope < old(self).view().scopes.len(),
        ensures
            final(self).wf(),
            final(self).view() == next_scope(old(self).view()),
    {
        let n = self.scopes.len();
        assert(texts(self.scopes@).len() == n);
        self.scope = self.scope + 1;
        self.page = 1;
        self.previous = Vec::new();
        assert(self.view().previous =~= Seq::<Seq<char>>::empty());
    }

    /// Takes what was read from the page of the last `FetchPage` action.
    /// Outside that state it changes nothing.
    pub fn page_loaded(&mut self, report: PageReport)
        requires
            old(self).wf(),
        ensures
            final(self).wf(),
            final(self).view() == after_page(
                old(self).view(),
                texts(report.ids@),
                report.no_results,
                report.reported_page,
            ),
    {
        if self.next_work < self.work.len() || self.scope >= self.scopes.len() {
            return;
        }
        let ends = match self.rule {
            StopRule::RepeatedPage => same_texts(&report.ids, &self.previous),
            StopRule::Marker => report.no_results || match report.reported_page {
                Some(p) => p != self.page,
                None => false,
            },
        };
        if ends {
            self.advance_scope();
            return;
        }
        let ghost old_view = self.view();
        let fresh = self.ledger.unseen_of(&report.ids);
        proof {
            lemma_unseen_shape(self.ledger.entries(), texts(report.ids@));
        }
        self.work = fresh;
        self.next_work = 0;
        assert(self.view().pending =~= unseen(old_view.ledger, texts(report.ids@)));
        if self.page < u32::MAX {
            self.page = self.page + 1;
            self.previous = report.ids;
        } else {
            self.advance_scope();
        }
    }

    /// Loading the page of the last `FetchPage` action failed (a timeout is
    /// no failure: it is an empty page). The scope is abandoned; the next one
    /// starts. Outside that state it changes nothing.
    pub fn page_failed(&mut self)
        requires
            old(self).wf(),
        ensures
            final(self).wf(),
            final(self).view() == after_page_failure(old(self).view()),
    {
        if self.next_work < self.work.len() || self.scope >= self.scopes.len() {
            return;
        }
        self.advance_scope();
    }

    /// The listing of the last `FetchListing` action was persisted: its
    /// identifier is recorded in the ledger. Returns that identifier, which
    /// the caller appends to the ledger file. Outside that state it changes
    /// nothing and returns `None`.
    pub fn listing_stored(&mut self) -> (r: Option<String>)
        requires
            old(self).wf(),
        ensures
            final(self).wf(),
            final(self).view() == after_listing_stored(old(self).view()),
            old(self).view().pending.len() > 0 ==> (r matches Some(id) && id@ == old(
                self,
            ).view().pending[0] && !old(self).view().ledger.contains(id@)),
            old(self).view().pending.len() == 0 ==> r is None,
    {
        if self.next_work >= self.work.len() {
            return None;
        }
        let ghost v = self.view();
        let id = self.work[self.next_work].clone();
        assert(v.pending[0] == id@);
        assert(v.pending.contains(id@));
        let added = self.ledger.record(id.clone());
        self.next_work = self.next_work + 1;
        proof {
            let w = self.view();
            assert(w.pending =~= v.pending.drop_first());
            assert(w.ledger == v.ledger.push(id@));
            assert forall|x: Seq<char>| #[trigger] w.pending.contains(x) implies x.len() > 0
                && !w.ledger.contains(x) by {
                let i = choose|i: int| 0 <= i < w.pending.len() && w.pending[i] == x;
                assert(v.pending[i + 1] == x);
                assert(v.pending.contains(x));
                assert(x != id@);
                if w.ledger.contains(x) {
                    let j = choose|j: int| 0 <= j < w.ledger.len() && w.ledger[j] == x;
                    assert(v.ledger.contains(x));
                }
            }
            assert(w.pending.no_duplicates()) by {
                assert forall|i: int, j: int|
                    0 <= i < w.pending.len() && 0 <= j < w.pending.len() && i != j implies w.pending[i]
                        != w.pending[j] by {
                    assert(w.pending[i] == v.pending[i + 1]);
                    assert(w.pending[j] == v.pending[j + 1]);
                }
            }
        }
        Some(id)
    }

    /// The listing of the last `FetchListing` action could not be fetched or
    /// persisted: it is skipped, and stays unrecorded so that a later run
    /// tries it again. Outside that state it changes nothing.
    pub fn listing_failed(&mut self)
        requires
            old(self).wf(),
        ensures
            final(self).wf(),
            final(self).view() == after_listing_failure(old(self).view()),
    {
        if self.next_work >= self.work.len() {
            return;
        }
        let ghost v = self.view();
        self.next_work = self.next_work + 1;
        proof {
            let w = self.view();
            assert(w.pending =~= v.pending.drop_first());
            assert forall|x: Seq<char>| #[trigger] w.pending.contains(x) implies x.len() > 0
                && !w.ledger.contains(x) by {
                let i = choose|i: int| 0 <= i < w.pending.len() && w.pending[i] == x;
                assert(v.pending[i + 1] == x);
                assert(v.pending.contains(x));
            }
            assert(w.pending.no_duplicates()) by {
                assert forall|i: int, j: int|
                    0 <= i < w.pending.len() && 0 <= j < w.pending.len() && i != j implies w.pending[i]
                        != w.pending[j] by {
                    assert(w.pending[i] == v.pending[i + 1]);
                    assert(w.pending[j] == v.pending[j + 1]);
                }
            }
        }
    }

    /// The identifiers recorded in the ledger so far, this run's included.
    pub fn ledger(&self) -> (r: &DedupLedger)
        ensures
            r.entries() == self.view().ledger,
    {
        &self.ledger
    }
}

} // verus!
