//! One parsing session: the tenders read from the pages of all queries, the
//! tenders stored from earlier sessions, and the report of what was found.

use vstd::prelude::*;
use std::collections::HashSet;
use crate::error::{error_text, ErrorView};
use crate::page_parser::{
    element_panics, outcome_view, spec_parse_element, RawTenderView, Tender, TenderView,
    TendersIter,
};
use crate::storage::TendersStorage;
use crate::text::{dec, dec_int, dec_width3, dec_zero2, push_dec, push_dec_i32, push_dec_width3, push_dec_zero2};

verus! {

broadcast use vstd::std_specs::hash::group_hash_axioms;

/// The state of a session as plain values.
pub struct SessionView {
    pub storage: Map<usize, TenderView>,
    pub ids: Set<usize>,
    pub tenders: Seq<TenderView>,
    pub report: Seq<char>,
}

/// Reading of one page, after some of its blocks.
pub struct PageProgress {
    pub storage: Map<usize, TenderView>,
    pub ids: Set<usize>,
    pub tenders: Seq<TenderView>,
    /// Tenders of the page new to this session.
    pub count: nat,
    /// Of those, the ones stored in an earlier session.
    pub known: nat,
    /// The report lines of the page's blocks.
    pub lines: Seq<char>,
}

/// A session's state and its tenders: every tender of the list was first met
/// in this session, is in the set of seen numbers and is stored; no two
/// tenders of the list share a number.
pub open spec fn session_wf(storage: Map<usize, TenderView>, ids: Set<usize>, tenders: Seq<TenderView>) -> bool {
    &&& forall|i: int| 0 <= i < tenders.len() ==> ids.contains(#[trigger] tenders[i].id)
    &&& forall|i: int|
        0 <= i < tenders.len() ==> storage.contains_key(#[trigger] tenders[i].id) && storage[tenders[i].id]
            == tenders[i]
    &&& forall|i: int, j: int|
        0 <= i < j < tenders.len() ==> #[trigger] tenders[i].id != #[trigger] tenders[j].id
}

/// What a session keeps from one state to a later one: the list only grows
/// at its end, and every tender added was neither seen nor stored at the
/// earlier state; the seen numbers and the storage only grow; the report only
/// grows at its end.
pub open spec fn session_grows(a: SessionView, b: SessionView) -> bool {
    &&& a.tenders.len() <= b.tenders.len()
    &&& b.tenders.subrange(0, a.tenders.len() as int) == a.tenders
    &&& forall|i: int|
        a.tenders.len() <= i < b.tenders.len() ==> !a.ids.contains(#[trigger] b.tenders[i].id)
            && !a.storage.contains_key(b.tenders[i].id)
    &&& a.storage.submap_of(b.storage)
    &&& forall|k: usize|
        #[trigger] b.storage.contains_key(k) && !a.storage.contains_key(k) ==> exists|i: int|
            a.tenders.len() <= i < b.tenders.len() && (#[trigger] b.tenders[i]).id == k
    &&& a.ids.subset_of(b.ids)
    &&& a.report.len() <= b.report.len()
    &&& b.report.subrange(0, a.report.len() as int) == a.report
}

/// What one page keeps, a whole session keeps: growth, as `session_grows`
/// states it, carries over from page to page. With `session_wf`, the
/// storage gains exactly the tenders added to the list.
pub proof fn lemma_session_grows_trans(a: SessionView, b: SessionView, c: SessionView)
    requires
        session_grows(a, b),
        session_grows(b, c),
    ensures
        session_grows(a, c),
{
    assert forall|i: int| 0 <= i < a.tenders.len() implies c.tenders[i] == a.tenders[i] by {
        assert(c.tenders.subrange(0, b.tenders.len() as int)[i] == b.tenders[i]);
        assert(b.tenders.subrange(0, a.tenders.len() as int)[i] == a.tenders[i]);
    }
    assert(c.tenders.subrange(0, a.tenders.len() as int) =~= a.tenders);
    assert forall|i: int|
        a.tenders.len() <= i < c.tenders.len() implies !a.ids.contains(#[trigger] c.tenders[i].id)
        && !a.storage.contains_key(c.tenders[i].id) by {
        if i < b.tenders.len() {
            assert(c.tenders.subrange(0, b.tenders.len() as int)[i] == b.tenders[i]);
        } else {
            assert(!b.ids.contains(c.tenders[i].id));
            assert(!b.storage.contains_key(c.tenders[i].id));
        }
    }
    assert forall|i: int| 0 <= i < a.report.len() implies c.report[i] == a.report[i] by {
        assert(c.report.subrange(0, b.report.len() as int)[i] == b.report[i]);
        assert(b.report.subrange(0, a.report.len() as int)[i] == a.report[i]);
    }
    assert(c.report.subrange(0, a.report.len() as int) =~= a.report);
    assert(a.storage.submap_of(c.storage)) by {
        assert forall|k: usize| #[trigger] a.storage.contains_key(k) implies c.storage.contains_key(k)
            && c.storage[k] == a.storage[k] by {
            assert(b.storage.contains_key(k));
        }
    }
    assert forall|k: usize|
        #[trigger] c.storage.contains_key(k) && !a.storage.contains_key(k) implies exists|i: int|
        a.tenders.len() <= i < c.tenders.len() && (#[trigger] c.tenders[i]).id == k by {
        if b.storage.contains_key(k) {
            let i = choose|i: int| a.tenders.len() <= i < b.tenders.len() && (#[trigger] b.tenders[i]).id == k;
            assert(c.tenders.subrange(0, b.tenders.len() as int)[i] == b.tenders[i]);
            assert(c.tenders[i].id == k);
        } else {
            let i = choose|i: int| b.tenders.len() <= i < c.tenders.len() && (#[trigger] c.tenders[i]).id == k;
            assert(c.tenders[i].id == k);
        }
    }
    assert(a.ids.subset_of(c.ids)) by {
        assert forall|k: usize| #[trigger] a.ids.contains(k) implies c.ids.contains(k) by {
            assert(b.ids.contains(k));
        }
    }
}

/// A block's line of the report.
pub open spec fn block_line(idx: nat, body: Seq<char>) -> Seq<char> {
    "\t"@ + dec_width3(idx) + body
}

/// The report line of a tender already met on an earlier page of this session.
pub open spec fn line_seen(idx: nat, id: nat) -> Seq<char> {
    block_line(idx, ". [ PASS ] Tender number "@ + dec(id) + " already exists in list.\n"@)
}

/// The report line of a tender stored in an earlier session.
pub open spec fn line_stored(idx: nat, id: nat) -> Seq<char> {
    block_line(idx, ". [ PASS ] Tender number "@ + dec(id) + " was added in another session.\n"@)
}

/// The report line of a tender added to the list.
pub open spec fn line_added(idx: nat, id: nat) -> Seq<char> {
    block_line(idx, ". [  OK  ] Tender number "@ + dec(id) + " has been added to the list.\n"@)
}

/// The report line of a block that could not be read.
pub open spec fn line_error(idx: nat, e: ErrorView) -> Seq<char> {
    block_line(idx, ". [ ERROR ] '"@ + error_text(e) + "'\n"@)
}

/// What reading the `idx`-th block (counted from 1) of a page does.
pub open spec fn page_step(p: PageProgress, idx: nat, o: Result<TenderView, ErrorView>) -> PageProgress {
    match o {
        Ok(t) => if p.ids.contains(t.id) {
            PageProgress { lines: p.lines + line_seen(idx, t.id as nat), ..p }
        } else if p.storage.contains_key(t.id) {
            PageProgress {
                ids: p.ids.insert(t.id),
                count: p.count + 1,
                known: p.known + 1,
                lines: p.lines + line_stored(idx, t.id as nat),
                ..p
            }
        } else {
            PageProgress {
                storage: p.storage.insert(t.id, t),
                ids: p.ids.insert(t.id),
                tenders: p.tenders.push(t),
                count: p.count + 1,
                lines: p.lines + line_added(idx, t.id as nat),
                ..p
            }
        },
        Err(e) => PageProgress { lines: p.lines + line_error(idx, e), ..p },
    }
}

/// What reading the first `n` blocks of a page does.
pub open spec fn page_steps(p: PageProgress, blocks: Seq<RawTenderView>, n: nat) -> PageProgress
    decreases n,
{
    if n == 0 {
        p
    } else {
        page_step(page_steps(p, blocks, (n - 1) as nat), n, spec_parse_element(blocks[n - 1]))
    }
}

/// The start of a page's reading in a session.
pub open spec fn page_start(s: SessionView) -> PageProgress {
    PageProgress { storage: s.storage, ids: s.ids, tenders: s.tenders, count: 0, known: 0, lines: seq![] }
}

/// `k` is the index of the first block whose reading panics.
pub open spec fn is_first_panic(blocks: Seq<RawTenderView>, k: int) -> bool {
    &&& 0 <= k < blocks.len()
    &&& element_panics(blocks[k])
    &&& forall|j: int| 0 <= j < k ==> !element_panics(#[trigger] blocks[j])
}

/// How many blocks are read before one whose reading panics: all of them
/// where none panics.
pub open spec fn blocks_read(blocks: Seq<RawTenderView>) -> nat {
    if exists|k: int| is_first_panic(blocks, k) {
        (choose|k: int| is_first_panic(blocks, k)) as nat
    } else {
        blocks.len()
    }
}

/// The report's paragraph for a page: how many tenders new to the session it
/// shows, for which page and query, then the lines of its blocks.
pub open spec fn page_paragraph(count: nat, page: u16, keyword: Seq<char>, lines: Seq<char>) -> Seq<char> {
    dec(count) + " tenders were found on page "@ + dec(page as nat) + " for the query '"@ + keyword
        + "'\n"@ + lines
}

/// The report's line for a page that could not be fetched.
pub open spec fn page_error_line(page: u16, keyword: Seq<char>, message: Seq<char>) -> Seq<char> {
    "An error occurred on page "@ + dec(page as nat) + " with the query '"@ + keyword + "': '"@
        + message + "'\n"@
}

/// A count as a `u16` holds it, wrapping past its largest value.
pub open spec fn wrap16(n: nat) -> nat {
    n % 65536
}

proof fn lemma_wrap16_step(n: nat)
    ensures
        wrap16(n + 1) == if wrap16(n) == 65535 { 0 } else { wrap16(n) + 1 },
{
    assert(wrap16(n + 1) == if wrap16(n) == 65535 { 0 } else { wrap16(n) + 1 }) by (nonlinear_arith);
}

/// What reading a fetched page does to a session: the blocks are read up to
/// the first whose reading panics; where none panics, the page's paragraph
/// goes into the report.
pub open spec fn page_effect(s: SessionView, blocks: Seq<RawTenderView>, page: u16, keyword: Seq<char>) -> SessionView {
    let n = blocks_read(blocks);
    let p = page_steps(page_start(s), blocks, n);
    SessionView {
        storage: p.storage,
        ids: p.ids,
        tenders: p.tenders,
        report: if n < blocks.len() {
            s.report
        } else {
            s.report + page_paragraph(wrap16(p.count), page, keyword, p.lines)
        },
    }
}

/// What noting a page that could not be fetched does to a session.
pub open spec fn error_effect(s: SessionView, page: u16, keyword: Seq<char>, message: Seq<char>) -> SessionView {
    SessionView { report: s.report + page_error_line(page, keyword, message), ..s }
}

/// A message that the parsing worker receives, as plain values: a fetched
/// page's blocks, or the error of fetching it; with the page and the query.
pub enum PageMessage {
    Fetched { blocks: Seq<RawTenderView>, page: u16, keyword: Seq<char> },
    Failed { page: u16, keyword: Seq<char>, message: Seq<char> },
}

/// What one message does to a session.
pub open spec fn message_effect(s: SessionView, m: PageMessage) -> SessionView {
    match m {
        PageMessage::Fetched { blocks, page, keyword } => page_effect(s, blocks, page, keyword),
        PageMessage::Failed { page, keyword, message } => error_effect(s, page, keyword, message),
    }
}

/// A session after the given messages, in order.
pub open spec fn session_after(s0: SessionView, msgs: Seq<PageMessage>) -> SessionView
    decreases msgs.len(),
{
    if msgs.len() == 0 {
        s0
    } else {
        message_effect(session_after(s0, msgs.drop_last()), msgs.last())
    }
}

/// What came of reading a page.
#[derive(Debug, Clone, Copy, PartialEq, Eq, Structural)]
pub struct PageOutcome {
    /// No tender of the page went into the list: the query's further pages
    /// are not to be fetched.
    pub stop: bool,
    /// Reading a block panicked; the blocks before it were read.
    pub panicked: bool,
}

/// The state of a parsing session.
pub struct ParseSession {
    pub storage: TendersStorage,
    pub tender_ids: HashSet<usize>,
    pub tenders: Vec<Tender>,
    pub report: String,
}

/// The tenders of a list as plain values.
pub open spec fn tender_views(v: Seq<Tender>) -> Seq<TenderView> {
    v.map_values(|t: Tender| t@)
}

impl View for ParseSession {
    type V = SessionView;

    open spec fn view(&self) -> SessionView {
        SessionView {
            storage: self.storage@,
            ids: self.tender_ids@,
            tenders: tender_views(self.tenders@),
            report: self.report@,
        }
    }
}

/// What every prefix of a page's reading keeps: the session stays well
/// formed; the list, the seen numbers and the storage only grow; and the
/// tenders added to the list are exactly the new tenders not stored before.
pub proof fn lemma_page_steps(p0: PageProgress, blocks: Seq<RawTenderView>, n: nat)
    requires
        p0.count == 0,
        p0.known == 0,
        session_wf(p0.storage, p0.ids, p0.tenders),
        n <= blocks.len(),
    ensures
        ({
            let p = page_steps(p0, blocks, n);
            &&& session_wf(p.storage, p.ids, p.tenders)
            &&& p.known <= p.count <= n
            &&& p.tenders.len() == p0.tenders.len() + p.count - p.known
            &&& p.tenders.subrange(0, p0.tenders.len() as int) == p0.tenders
            &&& p0.ids.subset_of(p.ids)
            &&& p0.storage.submap_of(p.storage)
            &&& forall|i: int|
                p0.tenders.len() <= i < p.tenders.len() ==> !p0.ids.contains(#[trigger] p.tenders[i].id)
                    && !p0.storage.contains_key(p.tenders[i].id)
            &&& forall|k: usize|
                #[trigger] p.storage.contains_key(k) && !p0.storage.contains_key(k) ==> exists|i: int|
                    p0.tenders.len() <= i < p.tenders.len() && (#[trigger] p.tenders[i]).id == k
        }),
    decreases n,
{
    if n > 0 {
        lemma_page_steps(p0, blocks, (n - 1) as nat);
        let q = page_steps(p0, blocks, (n - 1) as nat);
        let p = page_steps(p0, blocks, n);
        match spec_parse_element(blocks[n - 1]) {
            Ok(t) => {
                if !q.ids.contains(t.id) && !q.storage.contains_key(t.id) {
                    assert(p.tenders == q.tenders.push(t));
                    assert forall|i: int|
                        p0.tenders.len() <= i < p.tenders.len() implies !p0.ids.contains(
                        #[trigger] p.tenders[i].id,
                    ) && !p0.storage.contains_key(p.tenders[i].id) by {
                        if i < q.tenders.len() {
                            assert(p.tenders[i] == q.tenders[i]);
                        } else {
                            assert(p.tenders[i] == t);
                        }
                    }
                    assert forall|i: int| 0 <= i < q.tenders.len() implies #[trigger] q.tenders[i].id != t.id by {
                        assert(q.ids.contains(q.tenders[i].id));
                    }
                    assert(p.tenders.subrange(0, p0.tenders.len() as int) =~= q.tenders.subrange(
                        0,
                        p0.tenders.len() as int,
                    ));
                    assert forall|i: int| 0 <= i < p.tenders.len() implies p.storage.contains_key(
                        #[trigger] p.tenders[i].id,
                    ) && p.storage[p.tenders[i].id] == p.tenders[i] by {
                        if i < q.tenders.len() {
                            assert(p.tenders[i] == q.tenders[i]);
                            assert(q.tenders[i].id != t.id);
                        }
                    }
                    assert forall|i: int| 0 <= i < p.tenders.len() implies p.ids.contains(
                        #[trigger] p.tenders[i].id,
                    ) by {
                        if i < q.tenders.len() {
                            assert(p.tenders[i] == q.tenders[i]);
                        }
                    }
                    assert forall|i: int, j: int|
                        0 <= i < j < p.tenders.len() implies #[trigger] p.tenders[i].id
                        != #[trigger] p.tenders[j].id by {
                        if j < q.tenders.len() {
                            assert(p.tenders[i] == q.tenders[i]);
                            assert(p.tenders[j] == q.tenders[j]);
                        } else {
                            assert(p.tenders[i] == q.tenders[i]);
                            assert(p.tenders[j] == t);
                        }
                    }
                }
            },
            Err(_) => {},
        }
        assert forall|k: usize|
            #[trigger] p.storage.contains_key(k) && !p0.storage.contains_key(k) implies exists|i: int|
            p0.tenders.len() <= i < p.tenders.len() && (#[trigger] p.tenders[i]).id == k by {
            if q.storage.contains_key(k) {
                let i = choose|i: int|
                    p0.tenders.len() <= i < q.tenders.len() && (#[trigger] q.tenders[i]).id == k;
                assert(p.tenders.len() >= q.tenders.len());
                assert(p.tenders[i] == q.tenders[i]);
            } else {
                let j = q.tenders.len() as int;
                assert(p.tenders[j].id == k);
            }
        }
    }
}

proof fn lemma_first_panic_exists(blocks: Seq<RawTenderView>, j: int)
    requires
        0 <= j < blocks.len(),
        element_panics(blocks[j]),
    ensures
        exists|k: int| is_first_panic(blocks, k),
    decreases j,
{
    if forall|i: int| 0 <= i < j ==> !element_panics(#[trigger] blocks[i]) {
        assert(is_first_panic(blocks, j));
    } else {
        let i = choose|i: int| 0 <= i < j && element_panics(#[trigger] blocks[i]);
        lemma_first_panic_exists(blocks, i);
    }
}

/// Where a block panics, no block before it does, and where `blocks_read` is
/// the number of blocks, none panics.
pub proof fn lemma_blocks_read(blocks: Seq<RawTenderView>)
    ensures
        blocks_read(blocks) <= blocks.len(),
        forall|j: int| 0 <= j < blocks_read(blocks) ==> !element_panics(#[trigger] blocks[j]),
        blocks_read(blocks) < blocks.len() ==> element_panics(blocks[blocks_read(blocks) as int]),
{
    if exists|k: int| is_first_panic(blocks, k) {
        let k = choose|k: int| is_first_panic(blocks, k);
        assert(is_first_panic(blocks, k));
    } else {
        assert forall|j: int| 0 <= j < blocks.len() implies !element_panics(#[trigger] blocks[j]) by {
            if element_panics(blocks[j]) {
                lemma_first_panic_exists(blocks, j);
            }
        }
    }
}

/// One message keeps a well-formed session well formed, and the session grows.
pub proof fn lemma_message_effect(s: SessionView, m: PageMessage)
    requires
        session_wf(s.storage, s.ids, s.tenders),
    ensures
        ({
            let e = message_effect(s, m);
            session_wf(e.storage, e.ids, e.tenders) && session_grows(s, e)
        }),
{
    let e = message_effect(s, m);
    match m {
        PageMessage::Fetched { blocks, page, keyword } => {
            lemma_blocks_read(blocks);
            lemma_page_steps(page_start(s), blocks, blocks_read(blocks));
        },
        PageMessage::Failed { .. } => {
            assert(e.tenders.subrange(0, s.tenders.len() as int) =~= s.tenders);
        },
    }
    assert(e.report.subrange(0, s.report.len() as int) =~= s.report);
}

/// Over any sequence of messages a session stays well formed and grows: its
/// list keeps distinct numbers that were neither seen nor stored when it
/// began, the storage gains exactly the tenders of the list, and the report
/// only grows at its end.
pub proof fn lemma_session_after(s0: SessionView, msgs: Seq<PageMessage>)
    requires
        session_wf(s0.storage, s0.ids, s0.tenders),
    ensures
        ({
            let e = session_after(s0, msgs);
            session_wf(e.storage, e.ids, e.tenders) && session_grows(s0, e)
        }),
    decreases msgs.len(),
{
    if msgs.len() == 0 {
        assert(s0.tenders.subrange(0, s0.tenders.len() as int) =~= s0.tenders);
        assert(s0.report.subrange(0, s0.report.len() as int) =~= s0.report);
    } else {
        lemma_session_after(s0, msgs.drop_last());
        let mid = session_after(s0, msgs.drop_last());
        lemma_message_effect(mid, msgs.last());
        lemma_session_grows_trans(s0, mid, message_effect(mid, msgs.last()));
    }
}

/// Lines numbered by position: the `k`-th body (counted from 1) behind a tab
/// and `k` right-aligned in three characters.
pub open spec fn numbered_lines(bodies: Seq<Seq<char>>) -> Seq<char>
    decreases bodies.len(),
{
    if bodies.len() == 0 {
        Seq::<char>::empty()
    } else {
        numbered_lines(bodies.drop_last()) + "\t"@ + dec_width3(bodies.len()) + bodies.last()
    }
}

proof fn page_line_bodies(p0: PageProgress, blocks: Seq<RawTenderView>, n: nat) -> (bodies: Seq<Seq<char>>)
    requires
        n <= blocks.len(),
    ensures
        bodies.len() == n,
        page_steps(p0, blocks, n).lines == p0.lines + numbered_lines(bodies),
    decreases n,
{
    if n == 0 {
        assert(p0.lines + numbered_lines(Seq::<Seq<char>>::empty()) =~= p0.lines);
        Seq::<Seq<char>>::empty()
    } else {
        let prev = page_line_bodies(p0, blocks, (n - 1) as nat);
        let q = page_steps(p0, blocks, (n - 1) as nat);
        let body = match spec_parse_element(blocks[n - 1]) {
            Ok(t) => if q.ids.contains(t.id) {
                ". [ PASS ] Tender number "@ + dec(t.id as nat) + " already exists in list.\n"@
            } else if q.storage.contains_key(t.id) {
                ". [ PASS ] Tender number "@ + dec(t.id as nat) + " was added in another session.\n"@
            } else {
                ". [  OK  ] Tender number "@ + dec(t.id as nat) + " has been added to the list.\n"@
            },
            Err(e) => ". [ ERROR ] '"@ + error_text(e) + "'\n"@,
        };
        let bodies = prev.push(body);
        assert(bodies.drop_last() =~= prev);
        assert(page_steps(p0, blocks, n).lines =~= p0.lines + numbered_lines(bodies));
        bodies
    }
}

/// The lines that reading a page adds to its paragraph are numbered by the
/// position of their block: the line of the `k`-th block read (counted from
/// 1, whatever the blocks before it gave) begins with a tab and `k`
/// right-aligned in three characters.
pub proof fn lemma_page_lines_numbered(p0: PageProgress, blocks: Seq<RawTenderView>, n: nat)
    requires
        n <= blocks.len(),
    ensures
        exists|bodies: Seq<Seq<char>>|
            bodies.len() == n && #[trigger] page_steps(p0, blocks, n).lines == p0.lines + numbered_lines(bodies),
{
    let bodies = page_line_bodies(p0, blocks, n);
    assert(bodies.len() == n && page_steps(p0, blocks, n).lines == p0.lines + numbered_lines(bodies));
}

/// The tenders read from the first `n` blocks of a page, in order.
pub open spec fn page_oks(blocks: Seq<RawTenderView>, n: nat) -> Seq<TenderView>
    decreases n,
{
    if n == 0 {
        Seq::<TenderView>::empty()
    } else {
        let prev = page_oks(blocks, (n - 1) as nat);
        match spec_parse_element(blocks[n - 1]) {
            Ok(t) => prev.push(t),
            Err(_) => prev,
        }
    }
}

/// The tenders read over a sequence of messages, in order: of each fetched
/// page, the tenders of the blocks read.
pub open spec fn read_tenders(msgs: Seq<PageMessage>) -> Seq<TenderView>
    decreases msgs.len(),
{
    if msgs.len() == 0 {
        Seq::<TenderView>::empty()
    } else {
        read_tenders(msgs.drop_last()) + match msgs.last() {
            PageMessage::Fetched { blocks, .. } => page_oks(blocks, blocks_read(blocks)),
            PageMessage::Failed { .. } => Seq::<TenderView>::empty(),
        }
    }
}

/// The numbers of a sequence of tenders.
pub open spec fn ids_of(ts: Seq<TenderView>) -> Set<usize> {
    Set::new(|k: usize| exists|i: int| 0 <= i < ts.len() && (#[trigger] ts[i]).id == k)
}

/// Of the tenders `ts`, in order, the first of each number that is neither
/// among `ids` nor stored in `storage`.
pub open spec fn first_new(ts: Seq<TenderView>, ids: Set<usize>, storage: Map<usize, TenderView>) -> Seq<TenderView>
    decreases ts.len(),
{
    if ts.len() == 0 {
        Seq::<TenderView>::empty()
    } else {
        let prev = first_new(ts.drop_last(), ids, storage);
        let t = ts.last();
        if ids.contains(t.id) || storage.contains_key(t.id) || ids_of(ts.drop_last()).contains(t.id) {
            prev
        } else {
            prev.push(t)
        }
    }
}

/// The state of a session that began at `s0` and has read the tenders `ts`.
pub open spec fn tracks(
    s0: SessionView,
    ts: Seq<TenderView>,
    ids: Set<usize>,
    storage: Map<usize, TenderView>,
    tenders: Seq<TenderView>,
) -> bool {
    &&& ids == s0.ids.union(ids_of(ts))
    &&& tenders == s0.tenders + first_new(ts, s0.ids, s0.storage)
    &&& forall|k: usize| !ids.contains(k) ==> (#[trigger] storage.contains_key(k) == s0.storage.contains_key(k))
}

proof fn lemma_ids_of_push(ts: Seq<TenderView>, t: TenderView)
    ensures
        ids_of(ts.push(t)) == ids_of(ts).insert(t.id),
{
    let u = ts.push(t);
    assert forall|k: usize| ids_of(u).contains(k) <==> ids_of(ts).insert(t.id).contains(k) by {
        if ids_of(u).contains(k) {
            let i = choose|i: int| 0 <= i < u.len() && (#[trigger] u[i]).id == k;
            if i < ts.len() {
                assert(ts[i].id == k);
            }
        }
        if ids_of(ts).contains(k) {
            let i = choose|i: int| 0 <= i < ts.len() && (#[trigger] ts[i]).id == k;
            assert(u[i].id == k);
        }
        if k == t.id {
            assert(u[ts.len() as int].id == k);
        }
    }
    assert(ids_of(u) =~= ids_of(ts).insert(t.id));
}

proof fn lemma_tracks_step(s0: SessionView, ts: Seq<TenderView>, p: PageProgress, idx: nat, o: Result<TenderView, ErrorView>)
    requires
        tracks(s0, ts, p.ids, p.storage, p.tenders),
    ensures
        ({
            let q = page_step(p, idx, o);
            let ts2 = match o {
                Ok(t) => ts.push(t),
                Err(_) => ts,
            };
            &&& tracks(s0, ts2, q.ids, q.storage, q.tenders)
            &&& q.count == p.count + (if o is Ok && !p.ids.contains(o->Ok_0.id) { 1int } else { 0int })
        }),
{
    match o {
        Ok(t) => {
            let u = ts.push(t);
            lemma_ids_of_push(ts, t);
            assert(u.drop_last() =~= ts);
            let q = page_step(p, idx, o);
            if p.ids.contains(t.id) {
                assert(q.ids =~= s0.ids.union(ids_of(u)));
            } else if p.storage.contains_key(t.id) {
                assert(q.ids =~= s0.ids.union(ids_of(u)));
            } else {
                assert(q.ids =~= s0.ids.union(ids_of(u)));
                assert(q.tenders =~= s0.tenders + first_new(u, s0.ids, s0.storage));
            }
        },
        Err(_) => {},
    }
}

proof fn lemma_tracks_page(s0: SessionView, ts: Seq<TenderView>, s: SessionView, blocks: Seq<RawTenderView>, n: nat)
    requires
        tracks(s0, ts, s.ids, s.storage, s.tenders),
        n <= blocks.len(),
    ensures
        ({
            let p = page_steps(page_start(s), blocks, n);
            tracks(s0, ts + page_oks(blocks, n), p.ids, p.storage, p.tenders)
        }),
    decreases n,
{
    if n == 0 {
        assert(ts + page_oks(blocks, 0) =~= ts);
    } else {
        lemma_tracks_page(s0, ts, s, blocks, (n - 1) as nat);
        let prev = ts + page_oks(blocks, (n - 1) as nat);
        let o = spec_parse_element(blocks[n - 1]);
        lemma_tracks_step(s0, prev, page_steps(page_start(s), blocks, (n - 1) as nat), n, o);
        match o {
            Ok(t) => {
                assert(ts + page_oks(blocks, n) =~= prev.push(t));
            },
            Err(_) => {
                assert(ts + page_oks(blocks, n) =~= prev);
            },
        }
    }
}

proof fn lemma_tracks_session(s0: SessionView, msgs: Seq<PageMessage>)
    ensures
        ({
            let e = session_after(s0, msgs);
            tracks(s0, read_tenders(msgs), e.ids, e.storage, e.tenders)
        }),
    decreases msgs.len(),
{
    if msgs.len() == 0 {
        assert(ids_of(Seq::<TenderView>::empty()) =~= Set::<usize>::empty());
        assert(s0.ids.union(Set::<usize>::empty()) =~= s0.ids);
        assert(s0.tenders + Seq::<TenderView>::empty() =~= s0.tenders);
    } else {
        lemma_tracks_session(s0, msgs.drop_last());
        let mid = session_after(s0, msgs.drop_last());
        let ts = read_tenders(msgs.drop_last());
        match msgs.last() {
            PageMessage::Fetched { blocks, page, keyword } => {
                lemma_blocks_read(blocks);
                lemma_tracks_page(s0, ts, mid, blocks, blocks_read(blocks));
            },
            PageMessage::Failed { .. } => {
                assert(ts + Seq::<TenderView>::empty() =~= ts);
            },
        }
    }
}

/// Over a session, the list holds, in the order read, exactly the first tender
/// of each number that was neither met earlier in the session nor stored when
/// it began: what was listed before the messages, then the first new tender of
/// each number among the tenders read from the fetched pages.
pub proof fn lemma_session_list(s0: SessionView, msgs: Seq<PageMessage>)
    ensures
        session_after(s0, msgs).tenders == s0.tenders + first_new(read_tenders(msgs), s0.ids, s0.storage),
        session_after(s0, msgs).ids == s0.ids.union(ids_of(read_tenders(msgs))),
{
    lemma_tracks_session(s0, msgs);
}

/// The number of tenders of a page that its paragraph gives (before the
/// count wraps): those read whose number is new to the session, each number
/// counted once.
pub proof fn lemma_page_count(s: SessionView, blocks: Seq<RawTenderView>, n: nat)
    requires
        n <= blocks.len(),
    ensures
        page_steps(page_start(s), blocks, n).count == first_new(
            page_oks(blocks, n),
            s.ids,
            Map::<usize, TenderView>::empty(),
        ).len(),
    decreases n,
{
    if n == 0 {
    } else {
        lemma_page_count(s, blocks, (n - 1) as nat);
        let prev = page_oks(blocks, (n - 1) as nat);
        lemma_page_ids(s, blocks, (n - 1) as nat);
        let p = page_steps(page_start(s), blocks, (n - 1) as nat);
        let o = spec_parse_element(blocks[n - 1]);
        match o {
            Ok(t) => {
                let u = prev.push(t);
                assert(u.drop_last() =~= prev);
                assert(page_oks(blocks, n) == u);
                assert(p.ids.contains(t.id) <==> (s.ids.contains(t.id) || ids_of(prev).contains(t.id)));
            },
            Err(_) => {},
        }
    }
}

proof fn lemma_page_ids(s: SessionView, blocks: Seq<RawTenderView>, n: nat)
    requires
        n <= blocks.len(),
    ensures
        page_steps(page_start(s), blocks, n).ids == s.ids.union(ids_of(page_oks(blocks, n))),
    decreases n,
{
    if n == 0 {
        assert(ids_of(Seq::<TenderView>::empty()) =~= Set::<usize>::empty());
        assert(s.ids.union(Set::<usize>::empty()) =~= s.ids);
    } else {
        lemma_page_ids(s, blocks, (n - 1) as nat);
        let prev = page_oks(blocks, (n - 1) as nat);
        match spec_parse_element(blocks[n - 1]) {
            Ok(t) => {
                lemma_ids_of_push(prev, t);
                assert(page_steps(page_start(s), blocks, n).ids =~= s.ids.union(ids_of(prev.push(t))));
            },
            Err(_) => {},
        }
    }
}

/// The report text that one message adds: a page's paragraph where no block
/// panics, nothing where one does, the error line for a page not fetched.
pub open spec fn message_text(s: SessionView, m: PageMessage) -> Seq<char> {
    match m {
        PageMessage::Fetched { blocks, page, keyword } => {
            let n = blocks_read(blocks);
            let p = page_steps(page_start(s), blocks, n);
            if n < blocks.len() {
                Seq::<char>::empty()
            } else {
                page_paragraph(wrap16(p.count), page, keyword, p.lines)
            }
        },
        PageMessage::Failed { page, keyword, message } => page_error_line(page, keyword, message),
    }
}

/// The texts of the messages, each taken in the state the session had when
/// it came, concatenated in order.
pub open spec fn session_texts(s0: SessionView, msgs: Seq<PageMessage>) -> Seq<char>
    decreases msgs.len(),
{
    if msgs.len() == 0 {
        Seq::<char>::empty()
    } else {
        session_texts(s0, msgs.drop_last()) + message_text(session_after(s0, msgs.drop_last()), msgs.last())
    }
}

/// Over a session, the report is what it held before the messages, then the
/// text of each message in order.
pub proof fn lemma_session_report(s0: SessionView, msgs: Seq<PageMessage>)
    ensures
        session_after(s0, msgs).report == s0.report + session_texts(s0, msgs),
    decreases msgs.len(),
{
    if msgs.len() == 0 {
        assert(s0.report + Seq::<char>::empty() =~= s0.report);
    } else {
        lemma_session_report(s0, msgs.drop_last());
        let mid = session_after(s0, msgs.drop_last());
        match msgs.last() {
            PageMessage::Fetched { blocks, page, keyword } => {
                if blocks_read(blocks) < blocks.len() {
                    assert(mid.report + Seq::<char>::empty() =~= mid.report);
                }
            },
            PageMessage::Failed { .. } => {},
        }
        assert(session_after(s0, msgs).report =~= s0.report + session_texts(s0, msgs));
    }
}

impl ParseSession {
    /// Well-formed: see `session_wf`.
    pub open spec fn wf(&self) -> bool {
        session_wf(self.storage@, self.tender_ids@, tender_views(self.tenders@))
    }

    /// A session with no tender met yet, over the tenders stored before.
    pub fn new(storage: TendersStorage) -> (r: ParseSession)
        ensures
            r.wf(),
            r@.storage == storage@,
            r@.ids == Set::<usize>::empty(),
            r@.tenders == Seq::<TenderView>::empty(),
            r@.report == Seq::<char>::empty(),
    {
        let r = ParseSession {
            storage,
            tender_ids: HashSet::new(),
            tenders: Vec::new(),
            report: String::new(),
        };
        assert(tender_views(r.tenders@) =~= Seq::<TenderView>::empty());
        r
    }

    fn push_block_line(out: &mut String, idx: usize, head: &str, id: usize, tail: &str)
        ensures
            final(out)@ == old(out)@ + block_line(idx as nat, head@ + dec(id as nat) + tail@),
    {
        out.append("\t");
        push_dec_width3(out, idx as u64);
        out.append(head);
        push_dec(out, id as u64);
        out.append(tail);
        assert(out@ =~= old(out)@ + block_line(idx as nat, head@ + dec(id as nat) + tail@));
    }

    /// Reads the blocks of a fetched page of the query `keyword` one after
    /// another, up to the first whose reading panics, and notes each in the
    /// report. A tender met before in this session is passed over; a tender
    /// stored in an earlier session is noted as seen; any other is stored and
    /// added to the list. Where no block panics, the page's paragraph goes into
    /// the report, and the reading says to stop the query where the counts of
    /// new and of stored tenders agree: where no tender of the page went into
    /// the list. The counts are kept as `u16`, wrapping past 65535.
    pub fn handle_page(&mut self, iter: TendersIter, page: u16, keyword: &str) -> (r: PageOutcome)
        requires
            old(self).wf(),
            iter.pos == 0,
        ensures
            final(self)@ == page_effect(old(self)@, iter.blocks(), page, keyword@),
            final(self).wf(),
            ({
                let blocks = iter.blocks();
                let n = blocks_read(blocks);
                let p = page_steps(page_start(old(self)@), blocks, n);
                &&& final(self)@.storage == p.storage
                &&& final(self)@.ids == p.ids
                &&& final(self)@.tenders == p.tenders
                &&& r.panicked == (n < blocks.len())
                &&& !r.panicked ==> final(self)@.report == old(self)@.report + page_paragraph(
                    wrap16(p.count),
                    page,
                    keyword@,
                    p.lines,
                )
                &&& !r.panicked ==> r.stop == (wrap16(p.count) == wrap16(p.known))
                &&& r.panicked ==> final(self)@.report == old(self)@.report && !r.stop
            }),
            !r.panicked && final(self)@.tenders.len() < old(self)@.tenders.len() + 65536 ==> (r.stop
                <==> final(self)@.tenders.len() == old(self)@.tenders.len()),
            session_grows(old(self)@, final(self)@),
    {
        let mut iter = iter;
        let ghost blocks = iter.blocks();
        let ghost p0 = page_start(self@);
        let ghost report0 = self@.report;
        let mut count: u16 = 0;
        let mut known: u16 = 0;
        let mut lines = String::new();
        let mut panicked = false;
        proof {
            lemma_blocks_read(blocks);
        }
        while !panicked && iter.pos < iter.items.len()
            invariant
                iter.blocks() == blocks,
                iter.items.len() == blocks.len(),
                iter.pos <= iter.items.len(),
                p0.count == 0 && p0.known == 0,
                session_wf(p0.storage, p0.ids, p0.tenders),
                forall|j: int| 0 <= j < iter.pos ==> !element_panics(#[trigger] blocks[j]),
                panicked ==> iter.pos < blocks.len() && element_panics(blocks[iter.pos as int]),
                self.wf(),
                self@.report == report0,
                ({
                    let p = page_steps(p0, blocks, iter.pos as nat);
                    &&& self@.storage == p.storage
                    &&& self@.ids == p.ids
                    &&& self@.tenders == p.tenders
                    &&& count == wrap16(p.count)
                    &&& known == wrap16(p.known)
                    &&& lines@ == p.lines
                }),
            decreases iter.items.len() - iter.pos + (if panicked { 0int } else { 1int }),
        {
            if iter.next_would_panic() {
                panicked = true;
            } else {
                let ghost prev = self@;
                let ghost n = iter.pos as nat;
                proof {
                    lemma_page_steps(p0, blocks, n);
                }
                let idx = iter.pos + 1;
                let o = iter.next();
                proof {
                    assert(iter.blocks() =~= blocks);
                }
                match o {
                    Some(Ok(t)) => {
                        let id = t.id;
                        if self.tender_ids.contains(&id) {
                            Self::push_block_line(
                                &mut lines,
                                idx,
                                ". [ PASS ] Tender number ",
                                id,
                                " already exists in list.\n",
                            );
                        } else {
                            proof {
                                lemma_wrap16_step(page_steps(p0, blocks, n).count);
                            }
                            count = count.wrapping_add(1);
                            self.tender_ids.insert(id);
                            if self.storage.contains(&t) {
                                Self::push_block_line(
                                    &mut lines,
                                    idx,
                                    ". [ PASS ] Tender number ",
                                    id,
                                    " was added in another session.\n",
                                );
                                proof {
                                    lemma_wrap16_step(page_steps(p0, blocks, n).known);
                                }
                                known = known.wrapping_add(1);
                            } else {
                                Self::push_block_line(
                                    &mut lines,
                                    idx,
                                    ". [  OK  ] Tender number ",
                                    id,
                                    " has been added to the list.\n",
                                );
                                let ghost tv = t@;
                                self.storage.push(t.clone());
                                self.tenders.push(t);
                                proof {
                                    assert(tender_views(self.tenders@) =~= prev.tenders.push(tv));
                                }
                            }
                        }
                    },
                    Some(Err(e)) => {
                        let message = e.message();
                        lines.append("\t");
                        push_dec_width3(&mut lines, idx as u64);
                        lines.append(". [ ERROR ] '");
                        lines.append(message.as_str());
                        lines.append("'\n");
                    },
                    None => {},
                }
                proof {
                    lemma_page_steps(p0, blocks, n + 1);
                    let p = page_steps(p0, blocks, n + 1);
                    assert(lines@ =~= p.lines);
                }
            }
        }
        proof {
            lemma_page_steps(p0, blocks, iter.pos as nat);
            if panicked {
                assert(is_first_panic(blocks, iter.pos as int));
                let k = choose|k: int| is_first_panic(blocks, k);
                assert(k == iter.pos) by {
                    if k < iter.pos {
                        assert(!element_panics(blocks[k]));
                    } else if k > iter.pos {
                        assert(!element_panics(blocks[iter.pos as int]));
                    }
                }
            } else {
                assert forall|k: int| !is_first_panic(blocks, k) by {
                    if 0 <= k < blocks.len() {
                        assert(!element_panics(blocks[k]));
                    }
                }
            }
        }
        if panicked {
            proof {
                assert(self@.report.subrange(0, report0.len() as int) =~= report0);
            }
            PageOutcome { stop: false, panicked: true }
        } else {
            push_dec(&mut self.report, count as u64);
            self.report.append(" tenders were found on page ");
            push_dec(&mut self.report, page as u64);
            self.report.append(" for the query '");
            self.report.append(keyword);
            self.report.append("'\n");
            self.report.append(lines.as_str());
            proof {
                let p = page_steps(p0, blocks, iter.pos as nat);
                assert(self@.report =~= report0 + page_paragraph(wrap16(p.count), page, keyword@, p.lines));
                assert(self@.report.subrange(0, report0.len() as int) =~= report0);
            }
            PageOutcome { stop: count == known, panicked: false }
        }
    }

    /// Notes in the report that a page of a query could not be fetched.
    pub fn record_page_error(&mut self, page: u16, keyword: &str, message: &str)
        ensures
            final(self)@.report == old(self)@.report + page_error_line(page, keyword@, message@),
            final(self)@.storage == old(self)@.storage,
            final(self)@.ids == old(self)@.ids,
            final(self)@.tenders == old(self)@.tenders,
            final(self)@ == error_effect(old(self)@, page, keyword@, message@),
            final(self).wf() == old(self).wf(),
            session_grows(old(self)@, final(self)@),
    {
        self.report.append("An error occurred on page ");
        push_dec(&mut self.report, page as u64);
        self.report.append(" with the query '");
        self.report.append(keyword);
        self.report.append("': '");
        self.report.append(message);
        self.report.append("'\n");
        assert(self@.report =~= old(self)@.report + page_error_line(page, keyword@, message@));
        assert(self@.report.subrange(0, old(self)@.report.len() as int) =~= old(self)@.report);
        assert(self@.tenders.subrange(0, old(self)@.tenders.len() as int) =~= old(self)@.tenders);
    }
}

/// The tenders that a session added to the list, and its report.
#[derive(Debug)]
pub struct ParsingResult {
    pub tenders: Vec<Tender>,
    pub report: String,
}

/// The head of the e-mailed page: its document type, character set, title and styles.
pub open spec fn head_html() -> Seq<char> {
    "<!DOCTYPE html>\n<html lang=\"ru\">\n<head>\n<meta charset=\"utf-8\">\n<title>Тендеры</title>\n<style>\n.block{margin:8px 0;padding:8px;border:1px solid #ccc;border-radius:4px}\n.row{display:flex;gap:16px}\n.number{font-weight:bold}\n.date{color:#555}\n.description{margin-top:4px}\n</style>\n</head>\n"@
}

/// The head of the e-mailed page.
pub fn page_head() -> (r: &'static str)
    ensures
        r@ == head_html(),
{
    "<!DOCTYPE html>\n<html lang=\"ru\">\n<head>\n<meta charset=\"utf-8\">\n<title>Тендеры</title>\n<style>\n.block{margin:8px 0;padding:8px;border:1px solid #ccc;border-radius:4px}\n.row{display:flex;gap:16px}\n.number{font-weight:bold}\n.date{color:#555}\n.description{margin-top:4px}\n</style>\n</head>\n"
}

/// The date of a tender on the page: day and month in two digits, then the year.
pub open spec fn date_html(d: crate::page_parser::Date) -> Seq<char> {
    "<div class=\"date\">от "@ + dec_zero2(d.day as nat) + "."@ + dec_zero2(d.month as nat) + "."@
        + dec_int(d.year as int) + "</div>"@
}

/// One tender on the page: its number, its date where it has one, and its
/// description as a link to its address.
pub open spec fn tender_html(t: TenderView) -> Seq<char> {
    "<div class=\"block\"><div class=\"row\"><div class=\"number\">Тендер №"@ + dec(t.id as nat)
        + "</div>"@ + match t.date {
        Some(d) => date_html(d),
        None => Seq::<char>::empty(),
    } + "</div><div class=\"description\"><a href=\""@ + t.url + "\" target=\"_blank\">"@
        + t.description + "</a></div></div>\n"@
}

/// The tenders on the page, in order.
pub open spec fn tenders_html(ts: Seq<TenderView>) -> Seq<char>
    decreases ts.len(),
{
    if ts.len() == 0 {
        Seq::<char>::empty()
    } else {
        tenders_html(ts.drop_last()) + tender_html(ts.last())
    }
}

/// The whole page: head, then the tenders in a body.
pub open spec fn rendered_page(ts: Seq<TenderView>) -> Seq<char> {
    head_html() + "<body>"@ + tenders_html(ts) + "</body></html>"@
}

/// The digits of a time stamp: year, then month, day, hour, minute and second
/// in two digits each.
pub open spec fn stamp(year: i32, month: u32, day: u32, hour: u32, minute: u32, second: u32) -> Seq<char> {
    dec_int(year as int) + dec_zero2(month as nat) + dec_zero2(day as nat) + dec_zero2(hour as nat)
        + dec_zero2(minute as nat) + dec_zero2(second as nat)
}

fn push_stamp(out: &mut String, year: i32, month: u32, day: u32, hour: u32, minute: u32, second: u32)
    ensures
        final(out)@ == old(out)@ + stamp(year, month, day, hour, minute, second),
{
    push_dec_i32(out, year);
    push_dec_zero2(out, month as u64);
    push_dec_zero2(out, day as u64);
    push_dec_zero2(out, hour as u64);
    push_dec_zero2(out, minute as u64);
    push_dec_zero2(out, second as u64);
    assert(out@ =~= old(out)@ + stamp(year, month, day, hour, minute, second));
}

/// Where a session's report is saved: a text file in `log`, named by the time stamp.
pub fn report_log_path(year: i32, month: u32, day: u32, hour: u32, minute: u32, second: u32) -> (r: String)
    ensures
        r@ == "./log/"@ + stamp(year, month, day, hour, minute, second) + ".txt"@,
{
    let mut out = String::from_str("./log/");
    push_stamp(&mut out, year, month, day, hour, minute, second);
    out.append(".txt");
    out
}

/// Where the page is saved when it could not be mailed: an HTML file named by the time stamp.
pub fn html_backup_path(year: i32, month: u32, day: u32, hour: u32, minute: u32, second: u32) -> (r: String)
    ensures
        r@ == "./"@ + stamp(year, month, day, hour, minute, second) + ".html"@,
{
    let mut out = String::from_str("./");
    push_stamp(&mut out, year, month, day, hour, minute, second);
    out.append(".html");
    out
}

fn push_date_html(s: &mut String, d: crate::page_parser::Date)
    ensures
        final(s)@ == old(s)@ + date_html(d),
{
    s.append("<div class=\"date\">от ");
    push_dec_zero2(s, d.day as u64);
    s.append(".");
    push_dec_zero2(s, d.month as u64);
    s.append(".");
    push_dec_i32(s, d.year);
    s.append("</div>");
    assert(s@ =~= old(s)@ + date_html(d));
}

fn push_tender_html(s: &mut String, tender: &Tender)
    ensures
        final(s)@ == old(s)@ + tender_html(tender@),
{
    s.append("<div class=\"block\"><div class=\"row\"><div class=\"number\">Тендер №");
    push_dec(s, tender.id as u64);
    s.append("</div>");
    let ghost mid = s@;
    match tender.date {
        Some(d) => push_date_html(s, d),
        None => {},
    }
    let ghost after_date = s@;
    s.append("</div><div class=\"description\"><a href=\"");
    s.append(tender.url.as_str());
    s.append("\" target=\"_blank\">");
    s.append(tender.description.as_str());
    s.append("</a></div></div>\n");
    proof {
        let dpart = match tender.date {
            Some(d) => date_html(d),
            None => Seq::<char>::empty(),
        };
        assert(after_date =~= mid + dpart);
        assert(s@ =~= old(s)@ + tender_html(tender@));
    }
}

/// Adding a tender to the list adds exactly its block to the page, at the end
/// of the body: the page of a list with one more tender is the page of the
/// list, cut before its closing tags, then the new tender's block, then the
/// closing tags. So the page holds one block per tender, for a list of any
/// length.
pub proof fn lemma_render_push(ts: Seq<TenderView>, t: TenderView)
    ensures
        rendered_page(ts).len() >= 14,
        rendered_page(ts).subrange(rendered_page(ts).len() - 14, rendered_page(ts).len() as int)
            == "</body></html>"@,
        rendered_page(ts.push(t)) == rendered_page(ts).subrange(0, rendered_page(ts).len() - 14)
            + tender_html(t) + "</body></html>"@,
{
    reveal_strlit("</body></html>");
    let a = head_html() + "<body>"@ + tenders_html(ts);
    assert(rendered_page(ts) == a + "</body></html>"@);
    assert(rendered_page(ts).subrange(0, rendered_page(ts).len() - 14) =~= a);
    assert(rendered_page(ts).subrange(rendered_page(ts).len() - 14, rendered_page(ts).len() as int)
        =~= "</body></html>"@);
    assert(ts.push(t).drop_last() =~= ts);
    assert(rendered_page(ts.push(t)) =~= a + tender_html(t) + "</body></html>"@);
}

/// The page of an empty list is the head and an empty body.
pub proof fn lemma_render_empty()
    ensures
        rendered_page(Seq::<TenderView>::empty()) == head_html() + "<body></body></html>"@,
{
    reveal_strlit("<body>");
    reveal_strlit("</body></html>");
    reveal_strlit("<body></body></html>");
    assert(rendered_page(Seq::<TenderView>::empty()) =~= head_html() + "<body></body></html>"@);
}

impl ParsingResult {
    /// The page that lists the session's tenders.
    pub fn render(&self) -> (r: String)
        ensures
            r@ == rendered_page(tender_views(self.tenders@)),
    {
        let ghost ts = tender_views(self.tenders@);
        let mut s = String::from_str(page_head());
        s.append("<body>");
        let mut i: usize = 0;
        while i < self.tenders.len()
            invariant
                i <= self.tenders.len(),
                ts == tender_views(self.tenders@),
                s@ == head_html() + "<body>"@ + tenders_html(ts.subrange(0, i as int)),
            decreases self.tenders.len() - i,
        {
            let tender = &self.tenders[i];
            let ghost before = s@;
            push_tender_html(&mut s, tender);
            proof {
                assert(ts.subrange(0, i + 1).drop_last() =~= ts.subrange(0, i as int));
                assert(ts[i as int] == tender@);
            }
            i += 1;
        }
        s.append("</body></html>");
        proof {
            assert(ts.subrange(0, ts.len() as int) =~= ts);
        }
        s
    }
}

impl ParseSession {
    /// Ends the session: its list and report, and the storage to be saved.
    pub fn finish(self) -> (r: (ParsingResult, TendersStorage))
        ensures
            tender_views(r.0.tenders@) == self@.tenders,
            r.0.report@ == self@.report,
            r.1@ == self@.storage,
    {
        (ParsingResult { tenders: self.tenders, report: self.report }, self.storage)
    }
}

/// The outcome of a session from those of its two workers: the fetching
/// worker's error where it failed, else the parsing worker's outcome.
pub fn join_results<T, E>(requests: Result<(), E>, parsing: Result<T, E>) -> (r: Result<T, E>)
    ensures
        match requests {
            Err(e) => r == Err::<T, E>(e),
            Ok(_) => r == parsing,
        },
{
    match requests {
        Err(e) => Err(e),
        Ok(_) => parsing,
    }
}

} // verus!
