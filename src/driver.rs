use vstd::prelude::*;
use crate::record::{Record, opt_view};
use crate::join::{Row, rows_view, all_wf, strings_view};
use crate::options::{WhereClause, clause_view};

verus! {

/// The state of a multi-round retrieval as the contracts see it.
pub struct RoundsModel {
    /// The filter expressions, one per filter round, in the order given.
    pub filters: Seq<Seq<char>>,
    /// Index of the filter of the current round.
    pub current: int,
    /// Pages that may still be requested (a budget of 1 means no more).
    pub budget: int,
    pub paging: bool,
    /// The continuation token the next request carries.
    pub token: Option<Seq<char>>,
    /// Rows of all rounds so far, in round order.
    pub rows: Seq<Row>,
    /// The token the last response carried.
    pub last_token: Option<Seq<char>>,
    pub done: bool,
}

/// The state after one round that returned `rows` and `tok`: the same filter
/// again with the new token while paging has budget and a token came back;
/// else the next filter with no token; else done.
pub open spec fn step(m: RoundsModel, rows: Seq<Row>, tok: Option<Seq<char>>) -> RoundsModel {
    let acc = m.rows + rows;
    if m.paging && m.budget > 1 && tok.is_some() {
        RoundsModel { budget: m.budget - 1, token: tok, rows: acc, last_token: tok, ..m }
    } else if m.current + 1 < m.filters.len() {
        RoundsModel { current: m.current + 1, token: None, rows: acc, last_token: tok, ..m }
    } else {
        RoundsModel { rows: acc, last_token: tok, done: true, ..m }
    }
}

/// The state after the given rounds, stopping once done.
pub open spec fn run(m: RoundsModel, rounds: Seq<(Seq<Row>, Option<Seq<char>>)>) -> RoundsModel
    decreases rounds.len(),
{
    if rounds.len() == 0 || m.done {
        m
    } else {
        run(step(m, rounds[0].0, rounds[0].1), rounds.subrange(1, rounds.len() as int))
    }
}

/// The filter rounds a filter specification stands for: a single filter is
/// one round; a list is one round per entry; an empty list is one round with
/// no filter.
pub open spec fn filter_rounds(single: bool, filters: Seq<Seq<char>>) -> Seq<Seq<char>> {
    if !single && filters.len() == 0 {
        seq![Seq::empty()]
    } else {
        filters
    }
}

/// The state before the first round.
pub open spec fn initial(filters: Seq<Seq<char>>, paging: bool, page: int, token: Option<Seq<char>>) -> RoundsModel {
    RoundsModel {
        filters,
        current: 0,
        budget: page,
        paging,
        token,
        rows: Seq::empty(),
        last_token: None,
        done: false,
    }
}

/// A progress report: rows loaded so far while paging, or filter rounds
/// completed out of the total.
pub struct Progress {
    pub completed: usize,
    pub total: Option<usize>,
}

/// Drives the rounds of one retrieval: which request comes next, and what
/// each response does to the accumulated rows.
pub struct Retrieval {
    filters: Vec<String>,
    multi: bool,
    current: usize,
    budget: usize,
    paging: bool,
    token: Option<String>,
    rows: Vec<Record>,
    last_token: Option<String>,
    done: bool,
}

impl Retrieval {
    pub closed spec fn view(&self) -> RoundsModel {
        RoundsModel {
            filters: strings_view(self.filters@),
            current: self.current as int,
            budget: self.budget as int,
            paging: self.paging,
            token: opt_view(self.token),
            rows: rows_view(self.rows@),
            last_token: opt_view(self.last_token),
            done: self.done,
        }
    }

    pub closed spec fn wf(&self) -> bool {
        &&& self.filters@.len() > 0
        &&& self.current < self.filters@.len()
        &&& all_wf(self.rows@)
    }

    /// Whether the filters came as a list (progress then counts filter rounds).
    pub closed spec fn is_multi(&self) -> bool {
        self.multi
    }

    /// Starts a retrieval for filter `filter`, paging with a budget of `page`
    /// requests when `paging` holds, from continuation token `token`.
    pub fn new(filter: WhereClause, paging: bool, page: usize, token: Option<String>) -> (r: Retrieval)
        ensures
            r.wf(),
            r.is_multi() == !clause_view(filter).0,
            r.view() == initial(filter_rounds(clause_view(filter).0, clause_view(filter).1), paging, page as int, opt_view(token)),
    {
        let ghost cv = clause_view(filter);
        let (single, filters) = match filter {
            WhereClause::Single(s) => {
                let mut v: Vec<String> = Vec::new();
                v.push(s);
                assert(strings_view(v@) =~= cv.1);
                (true, v)
            },
            WhereClause::Multiple(v) => {
                assert(strings_view(v@) =~= cv.1);
                (false, v)
            },
        };
        let mut fs = filters;
        if fs.len() == 0 {
            fs.push(String::new());
            assert(strings_view(fs@) =~= seq![Seq::<char>::empty()]);
        }
        let r = Retrieval {
            filters: fs,
            multi: !single,
            current: 0,
            budget: page,
            paging,
            token,
            rows: Vec::new(),
            last_token: None,
            done: false,
        };
        assert(rows_view(r.rows@) =~= Seq::<Row>::empty());
        r
    }

    /// Whether all rounds have run.
    pub fn is_done(&self) -> (r: bool)
        ensures
            r == self.view().done,
    {
        self.done
    }

    /// The filter and continuation token of the next request.
    pub fn next_request(&self) -> (r: (String, Option<String>))
        requires
            self.wf(),
        ensures
            r.0@ == self.view().filters[self.view().current],
            opt_view(r.1) == self.view().token,
    {
        (self.filters[self.current].clone(), crate::record::clone_opt(&self.token))
    }

    /// Takes in the rows and token of one round and moves to the next state
    /// (see `step`). Returns the progress to report, if any: rows loaded when
    /// another page follows, filter rounds completed when another filter
    /// follows, and at the end the final count of a paged or multi-filter run.
    pub fn record_round(&mut self, rows: Vec<Record>, tok: Option<String>) -> (p: Option<Progress>)
        requires
            old(self).wf(),
            !old(self).view().done,
            all_wf(rows@),
        ensures
            final(self).wf(),
            final(self).is_multi() == old(self).is_multi(),
            final(self).view() == step(old(self).view(), rows_view(rows@), opt_view(tok)),
            match p {
                Some(q) => {
                    let n = final(self).view();
                    if n.done {
                        if n.paging {
                            q.completed == n.rows.len() && q.total.is_none()
                        } else {
                            old(self).is_multi() && q.completed == n.filters.len() && q.total == Some(n.filters.len() as usize)
                        }
                    } else if n.current == old(self).view().current {
                        q.completed == n.rows.len() && q.total.is_none()
                    } else {
                        q.completed == n.current && q.total == Some(n.filters.len() as usize)
                    }
                },
                None => final(self).view().done && !final(self).view().paging && !old(self).is_multi(),
            },
    {
        let ghost old_rows = rows_view(self.rows@);
        let mut rows = rows;
        let ghost added = rows_view(rows@);
        self.rows.append(&mut rows);
        assert(rows_view(self.rows@) =~= old_rows + added);
        if self.paging && self.budget > 1 && tok.is_some() {
            self.budget = self.budget - 1;
            self.last_token = crate::record::clone_opt(&tok);
            self.token = tok;
            Some(Progress { completed: self.rows.len(), total: None })
        } else if self.current < self.filters.len() - 1 {
            self.current = self.current + 1;
            self.token = None;
            self.last_token = tok;
            Some(Progress { completed: self.current, total: Some(self.filters.len()) })
        } else {
            self.last_token = tok;
            self.done = true;
            if self.paging {
                Some(Progress { completed: self.rows.len(), total: None })
            } else if self.multi {
                Some(Progress { completed: self.filters.len(), total: Some(self.filters.len()) })
            } else {
                None
            }
        }
    }

    /// The accumulated rows and the token of the last response.
    pub fn finish(self) -> (r: (Vec<Record>, Option<String>))
        ensures
            rows_view(r.0@) == self.view().rows,
            opt_view(r.1) == self.view().last_token,
            self.wf() ==> all_wf(r.0@),
    {
        (self.rows, self.last_token)
    }
}

/// The rows of the given rounds, in round order.
pub open spec fn all_rows(rounds: Seq<(Seq<Row>, Option<Seq<char>>)>) -> Seq<Row>
    decreases rounds.len(),
{
    if rounds.len() == 0 {
        Seq::empty()
    } else {
        all_rows(rounds.drop_last()) + rounds.last().0
    }
}

/// Running one more round extends a run that is not yet done by one step.
pub proof fn lemma_run_push(m: RoundsModel, rounds: Seq<(Seq<Row>, Option<Seq<char>>)>, x: (Seq<Row>, Option<Seq<char>>))
    ensures
        run(m, rounds.push(x)) == if run(m, rounds).done { run(m, rounds) } else { step(run(m, rounds), x.0, x.1) },
    decreases rounds.len(),
{
    if rounds.len() == 0 {
        if !m.done {
            assert(rounds.push(x).subrange(1, 1) =~= Seq::<(Seq<Row>, Option<Seq<char>>)>::empty());
            assert(rounds.push(x)[0] == x);
            let n = step(m, x.0, x.1);
            assert(run(n, Seq::<(Seq<Row>, Option<Seq<char>>)>::empty()) == n);
            assert(run(m, rounds.push(x)) == run(n, rounds.push(x).subrange(1, 1)));
        }
    } else if !m.done {
        let n = step(m, rounds[0].0, rounds[0].1);
        assert(rounds.push(x).subrange(1, rounds.len() + 1 as int) =~= rounds.subrange(1, rounds.len() as int).push(x));
        lemma_run_push(n, rounds.subrange(1, rounds.len() as int), x);
        assert(rounds.push(x)[0] == rounds[0]);
        assert(run(m, rounds.push(x)) == run(n, rounds.push(x).subrange(1, rounds.len() + 1 as int)));
        assert(run(m, rounds) == run(n, rounds.subrange(1, rounds.len() as int)));
    }
}

/// With paging off and a single filter, the retrieval is one round: its
/// request carries that filter and the given token, and the result is that
/// round's rows and token.
pub proof fn single_filter_is_one_round(f: Seq<char>, page: int, token: Option<Seq<char>>, rows: Seq<Row>, tok: Option<Seq<char>>)
    ensures
        ({
            let m = initial(filter_rounds(true, seq![f]), false, page, token);
            &&& m.filters[m.current] == f
            &&& m.token == token
            &&& step(m, rows, tok).done
            &&& step(m, rows, tok).rows == rows
            &&& step(m, rows, tok).last_token == tok
        }),
{
    assert(Seq::<Row>::empty() + rows =~= rows);
}

/// With paging off and `n` filters, round `k` (counting from 0) runs the
/// `k`-th filter without a token; the retrieval is done after exactly `n`
/// rounds, with the rows of all rounds in filter order.
pub proof fn filter_rounds_in_order(filters: Seq<Seq<char>>, page: int, token: Option<Seq<char>>,
    rounds: Seq<(Seq<Row>, Option<Seq<char>>)>, k: int)
    requires
        filters.len() > 0,
        rounds.len() == filters.len(),
        0 <= k <= rounds.len(),
    ensures
        ({
            let m = run(initial(filters, false, page, token), rounds.subrange(0, k));
            &&& m.rows == all_rows(rounds.subrange(0, k))
            &&& m.done == (k == rounds.len())
            &&& m.filters == filters
            &&& !m.paging
            &&& m.current == if k < rounds.len() { k } else { k - 1 }
            &&& k < rounds.len() ==> m.filters[m.current] == filters[k]
            &&& 0 < k < rounds.len() ==> m.token.is_none()
        }),
    decreases k,
{
    let m0 = initial(filters, false, page, token);
    if k == 0 {
        assert(rounds.subrange(0, 0) =~= Seq::<(Seq<Row>, Option<Seq<char>>)>::empty());
    } else {
        filter_rounds_in_order(filters, page, token, rounds, k - 1);
        let pre = rounds.subrange(0, k - 1);
        assert(rounds.subrange(0, k) =~= pre.push(rounds[k - 1]));
        lemma_run_push(m0, pre, rounds[k - 1]);
        assert(rounds.subrange(0, k).drop_last() =~= pre);
        assert(all_rows(rounds.subrange(0, k)) == all_rows(pre) + rounds[k - 1].0);
    }
}

/// With paging on, a budget of at least `n` pages and one filter, when every
/// round but the last returns a token and the last returns none, the
/// retrieval runs exactly `n` rounds and ends without a token; each round
/// after the first carries the token the one before returned.
pub proof fn paging_runs_until_no_token(f: Seq<char>, page: int, token: Option<Seq<char>>,
    rounds: Seq<(Seq<Row>, Option<Seq<char>>)>, k: int)
    requires
        rounds.len() > 0,
        page >= rounds.len(),
        forall|i: int| 0 <= i < rounds.len() - 1 ==> (#[trigger] rounds[i].1).is_some(),
        rounds.last().1.is_none(),
        0 <= k <= rounds.len(),
    ensures
        ({
            let m = run(initial(seq![f], true, page, token), rounds.subrange(0, k));
            &&& m.rows == all_rows(rounds.subrange(0, k))
            &&& m.done == (k == rounds.len())
            &&& m.filters == seq![f]
            &&& m.paging
            &&& m.current == 0
            &&& k < rounds.len() ==> m.filters[m.current] == f && m.budget == page - k
            &&& 0 < k < rounds.len() ==> m.token == rounds[k - 1].1
            &&& k == rounds.len() ==> m.last_token.is_none()
        }),
    decreases k,
{
    let m0 = initial(seq![f], true, page, token);
    if k == 0 {
        assert(rounds.subrange(0, 0) =~= Seq::<(Seq<Row>, Option<Seq<char>>)>::empty());
    } else {
        paging_runs_until_no_token(f, page, token, rounds, k - 1);
        let pre = rounds.subrange(0, k - 1);
        assert(rounds.subrange(0, k) =~= pre.push(rounds[k - 1]));
        lemma_run_push(m0, pre, rounds[k - 1]);
        assert(rounds.subrange(0, k).drop_last() =~= pre);
        assert(all_rows(rounds.subrange(0, k)) == all_rows(pre) + rounds[k - 1].0);
    }
}

} // verus!
