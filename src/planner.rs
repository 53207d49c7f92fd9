use vstd::prelude::*;
use vstd::string::*;

verus! {

/// Most queries one search plan holds.
pub const MAX_QUERIES: usize = 4;

/// The search engine that every query of a plan is sent to.
pub open spec fn search_base() -> Seq<char> {
    "https://duckduckgo.com/?q="@
}

/// A wall-clock moment, as the calendar fields that the planner reads.
#[derive(Clone, Copy, Debug, PartialEq, Eq)]
pub struct Timestamp {
    pub year: i32,
    pub month: u32,
    pub day: u32,
    pub hour: u32,
    pub minute: u32,
    pub second: u32,
}

pub open spec fn is_leap_year(y: int) -> bool {
    y % 4 == 0 && (y % 100 != 0 || y % 400 == 0)
}

pub open spec fn days_in_month(y: int, m: int) -> int {
    if m == 2 {
        if is_leap_year(y) { 29 } else { 28 }
    } else if m == 4 || m == 6 || m == 9 || m == 11 {
        30
    } else {
        31
    }
}

/// A Gregorian calendar date.
pub open spec fn valid_date(y: int, m: int, d: int) -> bool {
    1 <= m <= 12 && 1 <= d <= days_in_month(y, m)
}

/// A time of day, to the second, without leap seconds.
pub open spec fn valid_time(h: int, mi: int, s: int) -> bool {
    0 <= h < 24 && 0 <= mi < 60 && 0 <= s < 60
}

pub open spec fn digit(n: int) -> char {
    ('0' as int + n) as char
}

pub open spec fn two_digits(n: int) -> Seq<char> {
    seq![digit(n / 10), digit(n % 10)]
}

/// `YYYY-MM-DD`.
pub open spec fn iso_date(y: int, m: int, d: int) -> Seq<char> {
    two_digits(y / 100) + two_digits(y % 100) + seq!['-'] + two_digits(m) + seq!['-']
        + two_digits(d)
}

/// `HH:MM:SS`.
pub open spec fn iso_time(h: int, mi: int, s: int) -> Seq<char> {
    two_digits(h) + seq![':'] + two_digits(mi) + seq![':'] + two_digits(s)
}

/// Relies on `chrono::NaiveDate::from_ymd_opt`, which accepts exactly the
/// Gregorian dates, and on `NaiveDate`'s `Display`, which writes a year from 0
/// to 9999 as four digits, then two for the month and two for the day.
#[verifier::external_body]
fn date_text(year: i32, month: u32, day: u32) -> (r: Option<String>)
    requires
        0 <= year <= 9999,
    ensures
        r is Some <==> valid_date(year as int, month as int, day as int),
        r is Some ==> r->0@ == iso_date(year as int, month as int, day as int),
{
    match chrono::NaiveDate::from_ymd_opt(year, month, day) {
        Some(d) => Some(d.to_string()),
        None => None,
    }
}

/// Relies on `chrono::NaiveTime::from_hms_opt`, which refuses an hour past 23
/// and a minute or second past 59, and on `NaiveTime`'s `Display`, which writes
/// a whole second as `HH:MM:SS`.
#[verifier::external_body]
fn time_text(hour: u32, minute: u32, second: u32) -> (r: Option<String>)
    ensures
        r is Some <==> valid_time(hour as int, minute as int, second as int),
        r is Some ==> r->0@ == iso_time(hour as int, minute as int, second as int),
{
    match chrono::NaiveTime::from_hms_opt(hour, minute, second) {
        Some(t) => Some(t.to_string()),
        None => None,
    }
}

impl Timestamp {
    pub open spec fn wf(&self) -> bool {
        &&& 0 <= self.year <= 9999
        &&& valid_date(self.year as int, self.month as int, self.day as int)
        &&& valid_time(self.hour as int, self.minute as int, self.second as int)
    }

    pub open spec fn date_view(&self) -> Seq<char> {
        iso_date(self.year as int, self.month as int, self.day as int)
    }

    pub open spec fn time_view(&self) -> Seq<char> {
        iso_time(self.hour as int, self.minute as int, self.second as int)
    }

    /// A moment of the years 0 to 9999, or `None` where the fields name no
    /// calendar date or time of day.
    pub fn new(year: i32, month: u32, day: u32, hour: u32, minute: u32, second: u32) -> (r: Option<
        Timestamp,
    >)
        ensures
            r is Some <==> (0 <= year <= 9999 && valid_date(year as int, month as int, day as int)
                && valid_time(hour as int, minute as int, second as int)),
            r is Some ==> r->0.wf() && r->0 == (Timestamp { year, month, day, hour, minute, second }),
    {
        if year < 0 || year > 9999 || month < 1 || month > 12 || day < 1 || hour >= 24 || minute
            >= 60 || second >= 60 {
            return None;
        }
        let leap = year % 4 == 0 && (year % 100 != 0 || year % 400 == 0);
        let last: u32 = if month == 2 {
            if leap { 29 } else { 28 }
        } else if month == 4 || month == 6 || month == 9 || month == 11 {
            30
        } else {
            31
        };
        if day > last {
            return None;
        }
        Some(Timestamp { year, month, day, hour, minute, second })
    }

    /// The date as `YYYY-MM-DD`.
    pub fn date_string(&self) -> (r: String)
        requires
            self.wf(),
        ensures
            r@ == self.date_view(),
    {
        match date_text(self.year, self.month, self.day) {
            Some(s) => s,
            None => String::new(),
        }
    }

    /// The time of day as `HH:MM:SS`.
    pub fn time_string(&self) -> (r: String)
        requires
            self.wf(),
        ensures
            r@ == self.time_view(),
    {
        match time_text(self.hour, self.minute, self.second) {
            Some(s) => s,
            None => String::new(),
        }
    }
}

pub open spec fn task_intro() -> Seq<char> {
    "You are an agent that creates short sentence searches for an article library.\nConsidering the users question make **up to 4 searches**, related to the matter that are going to help you better understand and answer the question. For anything that depends on the time, the current date is "@
}

pub open spec fn task_time_label() -> Seq<char> {
    " and the current time is "@
}

/// The instruction given to the language model for one question.
pub open spec fn task_of(now: Timestamp) -> Seq<char> {
    task_intro() + now.date_view() + task_time_label() + now.time_view() + "."@
}

/// Builds the planning instruction around the caller's current moment.
pub fn task_instruction(now: &Timestamp) -> (r: String)
    requires
        now.wf(),
    ensures
        r@ == task_of(*now),
{
    let mut out = String::from_str(
        "You are an agent that creates short sentence searches for an article library.\nConsidering the users question make **up to 4 searches**, related to the matter that are going to help you better understand and answer the question. For anything that depends on the time, the current date is ",
    );
    let d = now.date_string();
    let t = now.time_string();
    out.append(d.as_str());
    out.append(" and the current time is ");
    out.append(t.as_str());
    out.append(".");
    assert(out@ =~= task_of(*now));
    out
}

/// What `str::to_lowercase` returns: the text in lower case.
pub uninterp spec fn lower_of(s: Seq<char>) -> Seq<char>;

/// Relies on `str::to_lowercase`, whose result depends on the characters alone;
/// two queries are the same query when their lower cases are equal.
#[verifier::external_body]
pub(crate) fn lowercase(s: &str) -> (r: String)
    ensures
        r@ == lower_of(s@),
{
    s.to_lowercase()
}

/// The query with each space turned into `+`.
pub open spec fn encode_query(q: Seq<char>) -> Seq<char> {
    q.map_values(|c: char| if c == ' ' { '+' } else { c })
}

/// Relies on `str::replace`, which replaces every match of the pattern.
#[verifier::external_body]
fn spaces_to_plus(q: &str) -> (r: String)
    ensures
        r@ == encode_query(q@),
{
    q.replace(' ', "+")
}

pub open spec fn views(v: Seq<String>) -> Seq<Seq<char>> {
    v.map_values(|s: String| s@)
}

pub open spec fn lowers(qs: Seq<Seq<char>>) -> Seq<Seq<char>> {
    qs.map_values(|q: Seq<char>| lower_of(q))
}

/// The queries a plan keeps, in the model's order: each that is not empty and
/// not a case-insensitive repeat of one kept before, up to `MAX_QUERIES`.
pub open spec fn selected(raw: Seq<Seq<char>>) -> Seq<Seq<char>>
    decreases raw.len(),
{
    if raw.len() == 0 {
        Seq::empty()
    } else {
        let prev = selected(raw.drop_last());
        let q = raw.last();
        if prev.len() < MAX_QUERIES && q.len() > 0 && !lowers(prev).contains(lower_of(q)) {
            prev.push(q)
        } else {
            prev
        }
    }
}

/// The search address of one query.
pub open spec fn search_url(q: Seq<char>) -> Seq<char> {
    search_base() + encode_query(q)
}

/// The search plan: the address of each selected query, in order.
pub open spec fn plan_of(raw: Seq<Seq<char>>) -> Seq<Seq<char>> {
    selected(raw).map_values(|q: Seq<char>| search_url(q))
}

fn contains_text(v: &Vec<String>, x: &String) -> (r: bool)
    ensures
        r == views(v@).contains(x@),
{
    let mut i: usize = 0;
    while i < v.len()
        invariant
            i <= v@.len(),
            forall|j: int| 0 <= j < i ==> v@[j]@ != x@,
        decreases v.len() - i,
    {
        if v[i] == *x {
            assert(views(v@)[i as int] == x@);
            return true;
        }
        i = i + 1;
    }
    proof {
        if views(v@).contains(x@) {
            let j = choose|j: int| 0 <= j < views(v@).len() && views(v@)[j] == x@;
            assert(v@[j]@ == x@);
        }
    }
    false
}

/// Keeps the queries of a model's answer that a plan may hold.
pub fn select_queries(raw: &Vec<String>) -> (r: Vec<String>)
    ensures
        views(r@) == selected(views(raw@)),
{
    let mut kept: Vec<String> = Vec::new();
    let mut seen: Vec<String> = Vec::new();
    let mut i: usize = 0;
    while i < raw.len()
        invariant
            i <= raw@.len(),
            views(kept@) == selected(views(raw@.subrange(0, i as int))),
            views(seen@) == lowers(views(kept@)),
            kept@.len() <= MAX_QUERIES,
        decreases raw.len() - i,
    {
        let ghost before = views(raw@.subrange(0, i as int));
        let ghost after = views(raw@.subrange(0, i as int + 1));
        assert(after.drop_last() =~= before);
        assert(after.last() == raw@[i as int]@);
        let q = &raw[i];
        if kept.len() < MAX_QUERIES && !q.as_str().is_empty() {
            let low = lowercase(q.as_str());
            if !contains_text(&seen, &low) {
                let ghost old_kept = kept@;
                let ghost old_seen = seen@;
                kept.push(q.clone());
                seen.push(low);
                assert(views(kept@) =~= views(old_kept).push(q@));
                assert(views(seen@) =~= views(old_seen).push(lower_of(q@)));
                assert(lowers(views(kept@)) =~= lowers(views(old_kept)).push(lower_of(q@)));
            }
        }
        i = i + 1;
    }
    assert(raw@.subrange(0, raw@.len() as int) =~= raw@);
    kept
}

/// Turns a model's answer into the search plan: the selected queries, each
/// with spaces encoded and the search engine's address in front.
pub fn plan_urls(raw: &Vec<String>) -> (r: Vec<String>)
    ensures
        views(r@) == plan_of(views(raw@)),
{
    let queries = select_queries(raw);
    let mut urls: Vec<String> = Vec::new();
    let mut i: usize = 0;
    while i < queries.len()
        invariant
            i <= queries@.len(),
            views(queries@) == selected(views(raw@)),
            urls@.len() == i,
            forall|j: int| 0 <= j < i ==> #[trigger] urls@[j]@ == search_url(queries@[j]@),
        decreases queries.len() - i,
    {
        let mut url = String::from_str("https://duckduckgo.com/?q=");
        let enc = spaces_to_plus(queries[i].as_str());
        url.append(enc.as_str());
        urls.push(url);
        i = i + 1;
    }
    assert(views(urls@) =~= plan_of(views(raw@))) by {
        assert forall|j: int| 0 <= j < urls@.len() implies views(urls@)[j] == plan_of(views(raw@))[j] by {
            assert(views(queries@)[j] == queries@[j]@);
        }
    }
    urls
}

/// A search plan holds at most `MAX_QUERIES` queries, none of them empty and no
/// two equal once lower-cased; it has one address per query.
pub proof fn lemma_plan_bounded(raw: Seq<Seq<char>>)
    ensures
        selected(raw).len() <= MAX_QUERIES,
        forall|i: int| 0 <= i < selected(raw).len() ==> #[trigger] selected(raw)[i].len() > 0,
        forall|i: int, j: int|
            0 <= i < j < selected(raw).len() ==> lower_of(#[trigger] selected(raw)[i]) != lower_of(
                #[trigger] selected(raw)[j],
            ),
        plan_of(raw).len() == selected(raw).len(),
        forall|i: int| 0 <= i < plan_of(raw).len() ==> #[trigger] plan_of(raw)[i] == search_url(selected(raw)[i]),
    decreases raw.len(),
{
    if raw.len() > 0 {
        lemma_plan_bounded(raw.drop_last());
        let prev = selected(raw.drop_last());
        let q = raw.last();
        if prev.len() < MAX_QUERIES && q.len() > 0 && !lowers(prev).contains(lower_of(q)) {
            let cur = selected(raw);
            assert(cur == prev.push(q));
            assert forall|i: int, j: int| 0 <= i < j < cur.len() implies lower_of(#[trigger] cur[i]) != lower_of(#[trigger] cur[j]) by {
                if j == cur.len() - 1 {
                    assert(lowers(prev)[i] == lower_of(prev[i]));
                }
            }
        }
    }
}

} // verus!
