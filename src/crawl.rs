use vstd::prelude::*;

verus! {

/// How pages are fetched: without running their scripts, or with them.
#[derive(Clone, Copy, Debug, PartialEq, Eq)]
pub enum CrawlMode {
    Static,
    Dynamic,
}

/// The decision taken after a page: crawl its outlinks or stop there.
#[derive(Clone, Copy, Debug, PartialEq, Eq)]
pub enum Feedback {
    FollowAll,
    FollowNone,
}

/// What became of one page visit.
pub enum PageOutcome {
    /// A readable article body was extracted.
    Article(String),
    /// The page was fetched, but no article body could be extracted.
    NoArticle,
    /// The page could not be fetched; the crawl of other pages goes on.
    FetchFailed,
}

/// The follow policy: outlinks are crawled exactly when an article was found.
pub open spec fn follow_policy(o: PageOutcome) -> Feedback {
    match o {
        PageOutcome::Article(_) => Feedback::FollowAll,
        _ => Feedback::FollowNone,
    }
}

/// The article texts among the outcomes, in order.
pub open spec fn articles(s: Seq<PageOutcome>) -> Seq<Seq<char>>
    decreases s.len(),
{
    if s.len() == 0 {
        Seq::empty()
    } else {
        match s.last() {
            PageOutcome::Article(t) => articles(s.drop_last()).push(t@),
            _ => articles(s.drop_last()),
        }
    }
}

proof fn lemma_articles_push(s: Seq<PageOutcome>, o: PageOutcome)
    ensures
        articles(s.push(o)) == articles(s) + articles(seq![o]),
        articles(seq![o]) == (match o {
            PageOutcome::Article(t) => seq![t@],
            _ => Seq::<Seq<char>>::empty(),
        }),
{
    let e = Seq::<PageOutcome>::empty();
    assert(seq![o].drop_last() =~= e);
    assert(seq![o].last() == o);
    assert(s.push(o).drop_last() =~= s);
    assert(articles(e) == Seq::<Seq<char>>::empty());
    match o {
        PageOutcome::Article(t) => {
            assert(articles(seq![o]) =~= seq![t@]);
            assert(articles(s.push(o)) =~= articles(s) + articles(seq![o]));
        },
        _ => {
            assert(articles(seq![o]) =~= Seq::<Seq<char>>::empty());
            assert(articles(s.push(o)) =~= articles(s) + articles(seq![o]));
        },
    }
}

/// The counter after `visits` are recorded from `start`, one increment each.
pub open spec fn counted(start: nat, visits: Seq<PageOutcome>) -> nat
    decreases visits.len(),
{
    if visits.len() == 0 {
        start
    } else {
        counted(start, visits.drop_last()) + 1
    }
}

proof fn lemma_counted_len(start: nat, visits: Seq<PageOutcome>)
    ensures
        counted(start, visits) == start + visits.len(),
    decreases visits.len(),
{
    if visits.len() > 0 {
        lemma_counted_len(start, visits.drop_last());
    }
}

/// The state of one crawl: pages visited so far and the articles gathered.
/// Shared between concurrent fetches, it is changed one visit at a time.
pub struct CrawlState {
    visited: u64,
    pages: Vec<String>,
}

impl CrawlState {
    pub closed spec fn visited_view(&self) -> nat {
        self.visited as nat
    }

    pub closed spec fn pages_view(&self) -> Seq<Seq<char>> {
        self.pages@.map_values(|p: String| p@)
    }

    pub fn new() -> (r: CrawlState)
        ensures
            r.visited_view() == 0,
            r.pages_view().len() == 0,
    {
        let r = CrawlState { visited: 0, pages: Vec::new() };
        assert(r.pages_view() =~= Seq::<Seq<char>>::empty());
        r
    }

    pub fn visited(&self) -> (r: u64)
        ensures
            r == self.visited_view(),
    {
        self.visited
    }

    pub fn pages(&self) -> (r: &Vec<String>)
        ensures
            r@.map_values(|p: String| p@) == self.pages_view(),
    {
        &self.pages
    }

    /// Counts one visit and keeps its article, if any. Returns the visit's
    /// number, from 1 on, and the follow decision for the page.
    pub fn record_visit(&mut self, outcome: PageOutcome) -> (r: (u64, Feedback))
        requires
            old(self).visited_view() < u64::MAX,
        ensures
            final(self).visited_view() == old(self).visited_view() + 1,
            r.0 == final(self).visited_view(),
            r.1 == follow_policy(outcome),
            final(self).pages_view() == old(self).pages_view() + articles(seq![outcome]),
    {
        self.visited = self.visited + 1;
        let ghost before = self.pages_view();
        let ghost o = outcome;
        proof {
            lemma_articles_push(Seq::<PageOutcome>::empty(), o);
        }
        match outcome {
            PageOutcome::Article(text) => {
                self.pages.push(text);
                assert(self.pages_view() =~= before + articles(seq![o]));
                (self.visited, Feedback::FollowAll)
            },
            _ => {
                assert(before + articles(seq![o]) =~= before);
                (self.visited, Feedback::FollowNone)
            },
        }
    }

    /// Records a batch of visits, in the order they completed.
    pub fn record_all(&mut self, outcomes: Vec<PageOutcome>)
        requires
            old(self).visited_view() + outcomes@.len() <= u64::MAX,
        ensures
            final(self).visited_view() == counted(old(self).visited_view(), outcomes@),
            final(self).pages_view() == old(self).pages_view() + articles(outcomes@),
    {
        proof {
            lemma_counted_len(old(self).visited_view(), outcomes@);
        }
        let ghost all = outcomes@;
        let n = outcomes.len();
        let mut rest = outcomes;
        let ghost start_pages = self.pages_view();
        let ghost start_visited = self.visited_view();
        let mut done: usize = 0;
        while rest.len() > 0
            invariant
                done + rest@.len() == all.len(),
                n == all.len(),
                rest@ == all.subrange(done as int, all.len() as int),
                self.visited_view() == start_visited + done,
                start_visited + all.len() <= u64::MAX,
                self.pages_view() == start_pages + articles(all.subrange(0, done as int)),
            decreases rest.len(),
        {
            let o = rest.remove(0);
            let ghost go = o;
            assert(go == all[done as int]);
            self.record_visit(o);
            proof {
                let prefix = all.subrange(0, done as int + 1);
                assert(prefix =~= all.subrange(0, done as int).push(go));
                lemma_articles_push(all.subrange(0, done as int), go);
            }
            done = done + 1;
            assert(rest@ =~= all.subrange(done as int, all.len() as int));
        }
        assert(all.subrange(0, done as int) =~= all);
    }
}

/// However the visits of a crawl interleave, the counter ends at the number
/// of pages visited: any two completion orders of the same visits leave the
/// same count, `N` visits from zero leave `N`.
pub proof fn lemma_visits_counted(order_a: Seq<PageOutcome>, order_b: Seq<PageOutcome>, start: nat)
    requires
        order_a.to_multiset() =~= order_b.to_multiset(),
    ensures
        counted(start, order_a) == counted(start, order_b),
        counted(0, order_a) == order_a.len(),
{
    vstd::seq_lib::to_multiset_len(order_a);
    vstd::seq_lib::to_multiset_len(order_b);
    lemma_counted_len(start, order_a);
    lemma_counted_len(start, order_b);
    lemma_counted_len(0, order_a);
}

} // verus!
