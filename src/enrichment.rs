//! The enrichment stage: walks the persisted raw-listing lines, answers each
//! from the response cache where it can, and asks the caller to make the
//! external call where it cannot. Each response of a call is cached under
//! the exact line it was made for.

use crate::cache::{
    cache_file_text, enumerates, lemma_enumeration_len, lemma_one_line_per_entry, line_breaks,
    ResponseCache, CACHE_CAPACITY,
};
use crate::text::{chars_of, decimal_value, is_decimal, parse_u32, texts};
use vstd::prelude::*;
use vstd::string::{StrSliceExecFns, StringExecFns};

verus! {

/// The pause, in milliseconds, after each external call; the provider limits
/// calls per minute and per day.
pub const CALL_DELAY_MS: u64 = 3000;

/// The longest summary an enriched record keeps, in characters.
pub const SUMMARY_MAX_CHARS: usize = 30;

/// The response text after repair: a text that does not end with `}` gets one
/// appended, for a generation cut short before its closing brace.
pub open spec fn repaired(s: Seq<char>) -> Seq<char> {
    if s.len() > 0 && s.last() == '}' {
        s
    } else {
        s.push('}')
    }
}

/// Repairs the message content of a response before it is parsed.
pub fn repair_response(content: String) -> (r: String)
    ensures
        r@ == repaired(content@),
{
    let cs = chars_of(content.as_str());
    if cs.len() > 0 && cs[cs.len() - 1] == '}' {
        content
    } else {
        proof {
            reveal_strlit("}");
        }
        let r = content.concat("}");
        assert(r@ =~= content@.push('}'));
        r
    }
}

/// Repair appends exactly one `}` to a text not ending in one, leaves a text
/// ending in one as it is, and so repairing twice is repairing once: a text
/// and its repaired form repair to the same text, and parse alike.
pub proof fn lemma_repair_idempotent(s: Seq<char>)
    ensures
        !(s.len() > 0 && s.last() == '}') ==> repaired(s) == s.push('}'),
        s.len() > 0 && s.last() == '}' ==> repaired(s) == s,
        repaired(repaired(s)) == repaired(s),
        repaired(s).len() > 0 && repaired(s).last() == '}',
{
}

/// A response cut just before its closing brace repairs to the whole
/// response: where `j` ends in `}` and the text before that brace does not,
/// the cut text and `j` repair to the same text, `j` itself.
pub proof fn lemma_repair_restores_cut_brace(j: Seq<char>)
    requires
        j.len() > 0,
        j.last() == '}',
        !(j.drop_last().len() > 0 && j.drop_last().last() == '}'),
    ensures
        repaired(j.drop_last()) == j,
        repaired(j) == j,
{
    assert(j.drop_last().push('}') =~= j);
}

/// A count field read from its text: a run of digits, as the number it spells.
pub fn coerce_count(text: &str) -> (r: Option<u32>)
    ensures
        r matches Some(v) ==> is_decimal(text@) && v as nat == decimal_value(text@),
        r is None ==> !is_decimal(text@) || decimal_value(text@) > u32::MAX,
{
    parse_u32(text)
}

/// A yes/no field read from its text: `true` or `false`.
pub fn coerce_flag(text: &str) -> (r: Option<bool>)
    ensures
        r == (if text@ == "true"@ {
            Some(true)
        } else if text@ == "false"@ {
            Some(false)
        } else {
            None
        }),
{
    let t = text.to_owned();
    if t == "true".to_owned() {
        Some(true)
    } else if t == "false".to_owned() {
        Some(false)
    } else {
        None
    }
}

/// A summary cut to its first `SUMMARY_MAX_CHARS` characters.
pub fn bounded_summary(text: &str) -> (r: String)
    ensures
        r@ == if text@.len() <= SUMMARY_MAX_CHARS {
            text@
        } else {
            text@.take(SUMMARY_MAX_CHARS as int)
        },
{
    let n = text.unicode_len();
    if n <= SUMMARY_MAX_CHARS {
        text.to_owned()
    } else {
        text.substring_char(0, SUMMARY_MAX_CHARS).to_owned()
    }
}

/// What the stage asks of the caller.
#[derive(Clone, Debug, PartialEq, Eq)]
pub enum EnrichAction {
    /// Append this response to the output: it came from the cache, with no
    /// call and no pause.
    Write(String),
    /// Make the external call for this input line and report its response
    /// (or its failure).
    Call(String),
    /// Every line is done.
    Finished,
    /// A call failed; the run stops. The cache still holds every response
    /// received, and is to be exported.
    Failed,
}

/// The stage's state as mathematical values.
pub struct EnrichView {
    pub lines: Seq<Seq<char>>,
    /// Index of the line in hand.
    pub next: nat,
    pub cache: Map<Seq<char>, Seq<char>>,
    pub capacity: nat,
    pub failed: bool,
}

/// The cached response for an input line: `Some` on a hit, `None` on a miss.
pub open spec fn cached_response(cache: Map<Seq<char>, Seq<char>>, line: Seq<char>) -> Option<
    Seq<char>,
> {
    if cache.contains_key(line) {
        Some(cache[line])
    } else {
        None
    }
}

/// The stage waits for the response of a call on the line in hand.
pub open spec fn awaiting_call(v: EnrichView) -> bool {
    !v.failed && v.next < v.lines.len() && !v.cache.contains_key(v.lines[v.next as int])
}

/// What `step` returns in state `v`, and the state after it.
pub open spec fn step_spec(v: EnrichView, action: EnrichAction, after: EnrichView) -> bool {
    if v.failed {
        action is Failed && after == v
    } else if v.next >= v.lines.len() {
        action is Finished && after == v
    } else {
        match cached_response(v.cache, v.lines[v.next as int]) {
            Some(resp) => (action matches EnrichAction::Write(out) && out@ == resp) && after == (
            EnrichView { next: v.next + 1, ..v }),
            None => (action matches EnrichAction::Call(line) && line@ == v.lines[v.next as int])
                && after == v,
        }
    }
}

/// The state after the call for the line in hand returned `response`.
pub open spec fn after_call_success(v: EnrichView, response: Seq<char>) -> EnrichView {
    EnrichView { next: v.next + 1, cache: v.cache.insert(v.lines[v.next as int], response), ..v }
}

/// Once a call's response is stored, the same line is never called again:
/// the state after the call holds the response under the line, a later call
/// for any other line keeps it, and whenever that line is in hand again the
/// run writes the stored response instead of calling.
pub proof fn lemma_stored_response_answers_line(
    v: EnrichView,
    response: Seq<char>,
    u: EnrichView,
    other: Seq<char>,
    action: EnrichAction,
    after: EnrichView,
)
    requires
        awaiting_call(v),
    ensures
        cached_response(after_call_success(v, response).cache, v.lines[v.next as int]) == Some(
            response,
        ),
        awaiting_call(u) && cached_response(u.cache, v.lines[v.next as int]) == Some(response)
            ==> cached_response(after_call_success(u, other).cache, v.lines[v.next as int])
            == Some(response),
        !u.failed && u.next < u.lines.len() && u.lines[u.next as int] == v.lines[v.next as int]
            && cached_response(u.cache, v.lines[v.next as int]) == Some(response) && step_spec(
            u,
            action,
            after,
        ) ==> (action matches EnrichAction::Write(out) && out@ == response),
{
}

/// The state after the calls for the next `k` lines in hand all succeed, the
/// `i`-th returning `responses[i]`.
pub open spec fn after_successes(v: EnrichView, responses: Seq<Seq<char>>, k: nat) -> EnrichView
    decreases k,
{
    if k == 0 {
        v
    } else {
        after_call_success(after_successes(v, responses, (k - 1) as nat), responses[k - 1])
    }
}

/// The next `k` lines in hand are distinct and none is cached yet.
pub open spec fn fresh_lines(v: EnrichView, k: nat) -> bool {
    &&& v.next + k <= v.lines.len()
    &&& forall|a: int, b: int|
        0 <= a < b < k ==> #[trigger] v.lines[v.next + a] != #[trigger] v.lines[v.next + b]
    &&& forall|a: int| 0 <= a < k ==> !v.cache.contains_key(#[trigger] v.lines[v.next + a])
}

/// Successive successful calls on fresh lines: each call is made (the run
/// waits for it), and afterwards the cache holds what it held before plus
/// exactly one entry per call, each line with its own response.
pub proof fn lemma_successes_fill_cache(v: EnrichView, responses: Seq<Seq<char>>, k: nat)
    requires
        !v.failed,
        v.cache.dom().finite(),
        fresh_lines(v, k),
        responses.len() >= k,
    ensures
        forall|i: nat| i < k ==> awaiting_call(#[trigger] after_successes(v, responses, i)),
        after_successes(v, responses, k).next == v.next + k,
        after_successes(v, responses, k).lines == v.lines,
        !after_successes(v, responses, k).failed,
        after_successes(v, responses, k).cache.dom().finite(),
        after_successes(v, responses, k).cache.len() == v.cache.len() + k,
        forall|x: Seq<char>|
            #[trigger] after_successes(v, responses, k).cache.contains_key(x) <==> (v.cache.contains_key(x)
                || exists|i: int| 0 <= i < k && #[trigger] v.lines[v.next + i] == x),
        forall|x: Seq<char>|
            v.cache.contains_key(x) ==> #[trigger] after_successes(v, responses, k).cache[x]
                == v.cache[x],
        forall|i: int|
            0 <= i < k ==> after_successes(v, responses, k).cache[#[trigger] v.lines[v.next + i]]
                == responses[i],
    decreases k,
{
    if k > 0 {
        let j = (k - 1) as nat;
        assert(fresh_lines(v, j));
        lemma_successes_fill_cache(v, responses, j);
        let w = after_successes(v, responses, j);
        let line = v.lines[(v.next + j) as int];
        assert(w.lines[w.next as int] == line);
        assert(!w.cache.contains_key(line)) by {
            if w.cache.contains_key(line) {
                assert(!v.cache.contains_key(line));
                let i = choose|i: int| 0 <= i < j && #[trigger] v.lines[v.next + i] == line;
            }
        }
        assert(awaiting_call(w));
        let u = after_successes(v, responses, k);
        assert(u == after_call_success(w, responses[j as int]));
        assert(u.cache.dom() =~= w.cache.dom().insert(line));
        assert forall|x: Seq<char>| #[trigger] u.cache.contains_key(x) <==> (v.cache.contains_key(x)
            || exists|i: int| 0 <= i < k && #[trigger] v.lines[v.next + i] == x) by {
            if exists|i: int| 0 <= i < k && #[trigger] v.lines[v.next + i] == x {
                let i = choose|i: int| 0 <= i < k && #[trigger] v.lines[v.next + i] == x;
                if i < j {
                    assert(w.cache.contains_key(x));
                }
            }
            if w.cache.contains_key(x) && !v.cache.contains_key(x) {
                let i = choose|i: int| 0 <= i < j && #[trigger] v.lines[v.next + i] == x;
                assert(0 <= i < k && v.lines[v.next + i] == x);
            }
        }
        assert forall|i: int| 0 <= i < k implies u.cache[#[trigger] v.lines[v.next + i]] == responses[i] by {
            if i < j {
                assert(v.lines[v.next + i] != line);
            }
        }
        assert forall|x: Seq<char>| v.cache.contains_key(x) implies #[trigger] u.cache[x] == v.cache[x] by {
            assert(x != line);
        }
        assert forall|i: nat| i < k implies awaiting_call(#[trigger] after_successes(v, responses, i)) by {
            if i < j {
            } else {
                assert(i == j);
            }
        }
    }
}

/// A batch that fails partway keeps what was paid for: when the calls for the
/// first `k` fresh lines succeed and the call for the next one fails, the run
/// stops with the cache holding exactly its earlier entries and one entry per
/// successful line (the failed line has none), and the cache file exported
/// then, free of line breaks within its entries, has one line per entry.
pub proof fn lemma_failed_batch_exports_successes(
    v: EnrichView,
    responses: Seq<Seq<char>>,
    k: nat,
    s: Seq<(Seq<char>, Seq<char>)>,
)
    requires
        !v.failed,
        v.cache.dom().finite(),
        fresh_lines(v, k + 1),
        responses.len() >= k,
        enumerates(s, after_successes(v, responses, k).cache),
        forall|i: int| 0 <= i < s.len() ==> !(#[trigger] s[i]).0.contains('\n') && !s[i].1.contains('\n'),
    ensures
        awaiting_call(after_successes(v, responses, k)),
        !after_successes(v, responses, k).cache.contains_key(v.lines[(v.next + k) as int]),
        s.len() == v.cache.len() + k,
        line_breaks(cache_file_text(s)) == v.cache.len() + k,
        forall|x: Seq<char>|
            #[trigger] after_successes(v, responses, k).cache.contains_key(x) <==> (v.cache.contains_key(x)
                || exists|i: int| 0 <= i < k && #[trigger] v.lines[v.next + i] == x),
{
    assert(fresh_lines(v, k));
    lemma_successes_fill_cache(v, responses, k);
    let w = after_successes(v, responses, k);
    let line = v.lines[(v.next + k) as int];
    assert(!w.cache.contains_key(line)) by {
        if w.cache.contains_key(line) {
            assert(!v.cache.contains_key(line));
            let i = choose|i: int| 0 <= i < k && #[trigger] v.lines[v.next + i] == line;
        }
    }
    assert(w.lines[w.next as int] == line);
    lemma_enumeration_len(s, w.cache);
    lemma_one_line_per_entry(s);
}

/// A second lookup of a line answers from the cache: a line not cached is a
/// miss, which leads to an external call; once its response is stored under
/// the line, the same line is a hit returning that very response, with no
/// call.
pub proof fn lemma_second_lookup_hits(
    cache: Map<Seq<char>, Seq<char>>,
    line: Seq<char>,
    response: Seq<char>,
)
    requires
        !cache.contains_key(line),
    ensures
        cached_response(cache, line) is None,
        cached_response(cache.insert(line, response), line) == Some(response),
{
}

/// An enrichment run over the lines of a raw-listing file.
pub struct EnrichmentRun {
    lines: Vec<String>,
    next: usize,
    cache: ResponseCache,
    failed: bool,
}

impl EnrichmentRun {
    pub closed spec fn view(&self) -> EnrichView {
        EnrichView {
            lines: texts(self.lines@),
            next: self.next as nat,
            cache: self.cache.entries(),
            capacity: self.cache.capacity(),
            failed: self.failed,
        }
    }

    pub closed spec fn wf(&self) -> bool {
        &&& self.cache.wf()
        &&& self.cache.capacity() == CACHE_CAPACITY
        &&& self.next <= self.lines.len()
    }

    /// A run over `lines` that starts from `cache`, which has the run
    /// capacity: every response received is kept.
    pub fn new(lines: Vec<String>, cache: ResponseCache) -> (r: EnrichmentRun)
        requires
            cache.wf(),
            cache.capacity() == CACHE_CAPACITY,
        ensures
            r.wf(),
            r.view() == (EnrichView {
                lines: texts(lines@),
                next: 0,
                cache: cache.entries(),
                capacity: cache.capacity(),
                failed: false,
            }),
    {
        EnrichmentRun { lines, next: 0, cache, failed: false }
    }

    /// The next thing to do. A line whose response is cached is answered at
    /// once, and the run moves past it.
    pub fn step(&mut self) -> (r: EnrichAction)
        requires
            old(self).wf(),
        ensures
            final(self).wf(),
            step_spec(old(self).view(), r, final(self).view()),
    {
        if self.failed {
            return EnrichAction::Failed;
        }
        if self.next >= self.lines.len() {
            return EnrichAction::Finished;
        }
        let line = &self.lines[self.next];
        assert(texts(self.lines@)[self.next as int] == line@);
        match self.cache.get(line) {
            Some(resp) => {
                self.next = self.next + 1;
                EnrichAction::Write(resp)
            },
            None => EnrichAction::Call(line.clone()),
        }
    }

    /// The call for the line in hand returned `response`: it is cached under
    /// the line and the run moves on. Returns the response to append to the
    /// output. Outside that state it changes nothing and returns `None`.
    /// The cache may not already hold `u64::MAX` entries, a count no memory
    /// reaches.
    pub fn call_succeeded(&mut self, response: String) -> (r: Option<String>)
        requires
            old(self).wf(),
            old(self).view().cache.len() < CACHE_CAPACITY,
        ensures
            final(self).wf(),
            awaiting_call(old(self).view()) ==> {
                let v = old(self).view();
                &&& r matches Some(out) && out@ == response@
                &&& final(self).view() == after_call_success(v, response@)
            },
            !awaiting_call(old(self).view()) ==> r is None && final(self).view() == old(self).view(),
    {
        if self.failed || self.next >= self.lines.len() {
            return None;
        }
        let line = self.lines[self.next].clone();
        assert(texts(self.lines@)[self.next as int] == line@);
        if self.cache.get(&line).is_some() {
            return None;
        }
        let out = response.clone();
        self.cache.put(line, response);
        self.next = self.next + 1;
        Some(out)
    }

    /// The call for the line in hand failed: the run stops, with the cache as
    /// it was. Outside that state it changes nothing.
    pub fn call_failed(&mut self)
        requires
            old(self).wf(),
        ensures
            final(self).wf(),
            awaiting_call(old(self).view()) ==> final(self).view() == (EnrichView {
                failed: true,
                ..old(self).view()
            }),
            !awaiting_call(old(self).view()) ==> final(self).view() == old(self).view(),
    {
        if self.failed || self.next >= self.lines.len() {
            return;
        }
        let line = &self.lines[self.next];
        assert(texts(self.lines@)[self.next as int] == line@);
        if self.cache.get(line).is_some() {
            return;
        }
        self.failed = true;
    }

    /// The cache as it stands, for export on success and on failure alike.
    pub fn cache(&self) -> (r: &ResponseCache)
        ensures
            r.entries() == self.view().cache,
            r.capacity() == self.view().capacity,
            self.wf() ==> r.wf(),
    {
        &self.cache
    }
}

} // verus!
