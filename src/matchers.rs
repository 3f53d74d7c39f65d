use vstd::prelude::*;

use crate::entries::last_index;
use crate::request::{Request, RequestView};
use crate::text::{to_upper, upper_of, upper_on_ascii};

verus! {

/// One expectation on a request. The same type describes what was observed
/// where an expectation is not met.
#[derive(Debug, Clone, PartialEq)]
pub enum Matcher {
    Method(String),
    Path(String),
    QueryExists(String),
    QueryMiss(String),
    QueryEq(String, String),
    FragmentEq(String),
    FragmentMiss,
    HeaderExists(String),
    HeaderMiss(String),
    HeaderEq(String, String),
    BodyMiss,
    BodyEq(String),
}

/// An expectation with its texts as character sequences.
pub enum MatcherView {
    Method(Seq<char>),
    Path(Seq<char>),
    QueryExists(Seq<char>),
    QueryMiss(Seq<char>),
    QueryEq(Seq<char>, Seq<char>),
    FragmentEq(Seq<char>),
    FragmentMiss,
    HeaderExists(Seq<char>),
    HeaderMiss(Seq<char>),
    HeaderEq(Seq<char>, Seq<char>),
    BodyMiss,
    BodyEq(Seq<char>),
}

impl View for Matcher {
    type V = MatcherView;

    open spec fn view(&self) -> MatcherView {
        match self {
            Matcher::Method(e) => MatcherView::Method(e@),
            Matcher::Path(e) => MatcherView::Path(e@),
            Matcher::QueryExists(k) => MatcherView::QueryExists(k@),
            Matcher::QueryMiss(k) => MatcherView::QueryMiss(k@),
            Matcher::QueryEq(k, e) => MatcherView::QueryEq(k@, e@),
            Matcher::FragmentEq(e) => MatcherView::FragmentEq(e@),
            Matcher::FragmentMiss => MatcherView::FragmentMiss,
            Matcher::HeaderExists(k) => MatcherView::HeaderExists(k@),
            Matcher::HeaderMiss(k) => MatcherView::HeaderMiss(k@),
            Matcher::HeaderEq(k, e) => MatcherView::HeaderEq(k@, e@),
            Matcher::BodyMiss => MatcherView::BodyMiss,
            Matcher::BodyEq(e) => MatcherView::BodyEq(e@),
        }
    }
}

/// The view of an optional report.
pub open spec fn report_view(o: Option<Matcher>) -> Option<MatcherView> {
    match o {
        Some(m) => Some(m@),
        None => None,
    }
}

impl MatcherView {
    /// `None` where the request meets the expectation; otherwise what the
    /// request actually holds, as an expectation of the same kind of field.
    pub open spec fn check(self, r: RequestView) -> Option<MatcherView> {
        match self {
            MatcherView::Method(e) => if upper_of(r.method) == upper_of(e) {
                None
            } else {
                Some(MatcherView::Method(r.method))
            },
            MatcherView::Path(e) => if r.path == e {
                None
            } else {
                Some(MatcherView::Path(r.path))
            },
            MatcherView::QueryEq(k, e) => if !r.query.contains_key(k) {
                Some(MatcherView::QueryMiss(k))
            } else {
                match r.query[k] {
                    Some(v) => if v == e {
                        None
                    } else {
                        Some(MatcherView::QueryEq(k, v))
                    },
                    None => Some(MatcherView::QueryExists(k)),
                }
            },
            MatcherView::QueryExists(k) => if r.query.contains_key(k) {
                None
            } else {
                Some(MatcherView::QueryMiss(k))
            },
            MatcherView::QueryMiss(k) => if r.query.contains_key(k) {
                Some(MatcherView::QueryExists(k))
            } else {
                None
            },
            MatcherView::HeaderEq(k, e) => if !r.headers.contains_key(k) {
                Some(MatcherView::HeaderMiss(k))
            } else if r.headers[k] == e {
                None
            } else {
                Some(MatcherView::HeaderEq(k, r.headers[k]))
            },
            MatcherView::HeaderExists(k) => if r.headers.contains_key(k) {
                None
            } else {
                Some(MatcherView::HeaderMiss(k))
            },
            MatcherView::HeaderMiss(k) => if r.headers.contains_key(k) {
                Some(MatcherView::HeaderExists(k))
            } else {
                None
            },
            MatcherView::FragmentEq(e) => match r.fragment {
                Some(f) => if f == e {
                    None
                } else {
                    Some(MatcherView::FragmentEq(f))
                },
                None => Some(MatcherView::FragmentMiss),
            },
            MatcherView::FragmentMiss => match r.fragment {
                Some(f) => Some(MatcherView::FragmentEq(f)),
                None => None,
            },
            MatcherView::BodyEq(e) => match r.body {
                Some(b) => if b == e {
                    None
                } else {
                    Some(MatcherView::BodyEq(b))
                },
                None => Some(MatcherView::BodyMiss),
            },
            MatcherView::BodyMiss => match r.body {
                Some(b) => Some(MatcherView::BodyEq(b)),
                None => None,
            },
        }
    }
}

impl Matcher {
    /// The method check once both methods are upper-cased: `None` where
    /// `actual_upper` and `expected_upper` agree, else a report of the method
    /// `actual` as it was received.
    pub fn check_method(actual: &String, actual_upper: &String, expected_upper: &String) -> (r:
        Option<Matcher>)
        ensures
            report_view(r) == if actual_upper@ == expected_upper@ {
                None
            } else {
                Some(MatcherView::Method(actual@))
            },
    {
        if actual_upper.eq(expected_upper) {
            None
        } else {
            Some(Matcher::Method(actual.clone()))
        }
    }

    /// `None` where `request` meets this expectation; otherwise the
    /// expectation that the request does meet on the same field.
    pub fn validate(&self, request: &Request) -> (r: Option<Matcher>)
        ensures
            report_view(r) == self@.check(request@),
            self@ matches MatcherView::Method(e) ==> upper_on_ascii(e, upper_of(e))
                && upper_on_ascii(request@.method, upper_of(request@.method)),
    {
        match self {
            Matcher::Method(expected) => {
                let actual = to_upper(request.method.as_str());
                let wanted = to_upper(expected.as_str());
                Matcher::check_method(&request.method, &actual, &wanted)
            },
            Matcher::Path(expected) => {
                if request.path.eq(expected) {
                    None
                } else {
                    Some(Matcher::Path(request.path.clone()))
                }
            },
            Matcher::QueryEq(key, expected) => match last_index(&request.query, key) {
                Some(j) => match &request.query[j].1 {
                    Some(actual) => if actual.eq(expected) {
                        None
                    } else {
                        Some(Matcher::QueryEq(key.clone(), actual.clone()))
                    },
                    None => Some(Matcher::QueryExists(key.clone())),
                },
                None => Some(Matcher::QueryMiss(key.clone())),
            },
            Matcher::QueryExists(key) => match last_index(&request.query, key) {
                Some(_) => None,
                None => Some(Matcher::QueryMiss(key.clone())),
            },
            Matcher::QueryMiss(key) => match last_index(&request.query, key) {
                Some(_) => Some(Matcher::QueryExists(key.clone())),
                None => None,
            },
            Matcher::HeaderEq(key, expected) => match last_index(&request.headers, key) {
                Some(j) => {
                    let actual = &request.headers[j].1;
                    if actual.eq(expected) {
                        None
                    } else {
                        Some(Matcher::HeaderEq(key.clone(), actual.clone()))
                    }
                },
                None => Some(Matcher::HeaderMiss(key.clone())),
            },
            Matcher::HeaderExists(key) => match last_index(&request.headers, key) {
                Some(_) => None,
                None => Some(Matcher::HeaderMiss(key.clone())),
            },
            Matcher::HeaderMiss(key) => match last_index(&request.headers, key) {
                Some(_) => Some(Matcher::HeaderExists(key.clone())),
                None => None,
            },
            Matcher::FragmentEq(expected) => match &request.fragment {
                Some(actual) => if actual.eq(expected) {
                    None
                } else {
                    Some(Matcher::FragmentEq(actual.clone()))
                },
                None => Some(Matcher::FragmentMiss),
            },
            Matcher::FragmentMiss => match &request.fragment {
                Some(actual) => Some(Matcher::FragmentEq(actual.clone())),
                None => None,
            },
            Matcher::BodyEq(expected) => match &request.body {
                Some(actual) => if actual.eq(expected) {
                    None
                } else {
                    Some(Matcher::BodyEq(actual.clone()))
                },
                None => Some(Matcher::BodyMiss),
            },
            Matcher::BodyMiss => match &request.body {
                Some(actual) => Some(Matcher::BodyEq(actual.clone())),
                None => None,
            },
        }
    }
}

/// What re-checking the report that a failed expectation gives finds: the
/// report itself is always met by the same request.
pub proof fn lemma_report_is_met(m: MatcherView, r: RequestView)
    ensures
        m.check(r) matches Some(d) ==> d.check(r) is None,
{
}

/// A query key that is present with no value meets `QueryExists` but not
/// `QueryEq`, which reports `QueryExists` rather than a value.
pub proof fn lemma_flag_is_not_a_value(r: RequestView, k: Seq<char>, e: Seq<char>)
    requires
        r.query.contains_key(k),
        r.query[k] is None,
    ensures
        MatcherView::QueryExists(k).check(r) is None,
        MatcherView::QueryEq(k, e).check(r) == Some(MatcherView::QueryExists(k)),
{
}

/// An ordered set of expectations that a request must all meet.
pub struct Matchers {
    pub inner: Vec<Matcher>,
}

impl View for Matchers {
    type V = Seq<MatcherView>;

    open spec fn view(&self) -> Seq<MatcherView> {
        self.inner@.map_values(|m: Matcher| m@)
    }
}

/// Every expectation of `ms` is met by `r`.
pub open spec fn all_met(ms: Seq<MatcherView>, r: RequestView) -> bool {
    forall|i: int| 0 <= i < ms.len() ==> (#[trigger] ms[i]).check(r) is None
}

/// The reports of the expectations of `ms` that `r` does not meet, in the
/// order of `ms`.
pub open spec fn reports(ms: Seq<MatcherView>, r: RequestView) -> Seq<MatcherView>
    decreases ms.len(),
{
    if ms.len() == 0 {
        Seq::empty()
    } else {
        let rest = reports(ms.drop_last(), r);
        match ms.last().check(r) {
            Some(d) => rest.push(d),
            None => rest,
        }
    }
}

/// A set of expectations is met exactly where it gives no report.
pub proof fn lemma_met_iff_no_reports(ms: Seq<MatcherView>, r: RequestView)
    ensures
        all_met(ms, r) <==> reports(ms, r).len() == 0,
    decreases ms.len(),
{
    if ms.len() > 0 {
        let t = ms.drop_last();
        lemma_met_iff_no_reports(t, r);
        lemma_reports_len(t, r);
        if all_met(ms, r) {
            assert forall|i: int| 0 <= i < t.len() implies (#[trigger] t[i]).check(r) is None by {
                assert(t[i] == ms[i]);
            }
            assert(ms[ms.len() - 1].check(r) is None);
        }
        if reports(ms, r).len() == 0 {
            assert forall|i: int| 0 <= i < ms.len() implies (#[trigger] ms[i]).check(r) is None by {
                if i < t.len() {
                    assert(t[i] == ms[i]);
                }
            }
        }
    }
}

/// There are never more reports than expectations.
proof fn lemma_reports_len(ms: Seq<MatcherView>, r: RequestView)
    ensures
        reports(ms, r).len() <= ms.len(),
    decreases ms.len(),
{
    if ms.len() > 0 {
        lemma_reports_len(ms.drop_last(), r);
    }
}

/// The reports are those of the failing expectations, each at most once, in
/// the order in which the expectations stand: `idx` gives the position of the
/// expectation behind each report.
pub proof fn lemma_reports_in_order(ms: Seq<MatcherView>, r: RequestView) -> (idx: Seq<int>)
    ensures
        idx.len() == reports(ms, r).len(),
        forall|k: int| 0 <= k < idx.len() ==> 0 <= #[trigger] idx[k] < ms.len(),
        forall|k: int, l: int| 0 <= k < l < idx.len() ==> idx[k] < idx[l],
        forall|k: int|
            0 <= k < idx.len() ==> ms[#[trigger] idx[k]].check(r) == Some(reports(ms, r)[k]),
        forall|i: int|
            0 <= i < ms.len() && (#[trigger] ms[i]).check(r) is Some ==> exists|k: int|
                0 <= k < idx.len() && idx[k] == i,
    decreases ms.len(),
{
    if ms.len() == 0 {
        Seq::empty()
    } else {
        let t = ms.drop_last();
        let n = ms.len() - 1;
        let prev = lemma_reports_in_order(t, r);
        assert forall|i: int| 0 <= i < t.len() implies t[i] == ms[i] by {}
        match ms.last().check(r) {
            Some(d) => {
                let idx = prev.push(n);
                assert forall|i: int|
                    0 <= i < ms.len() && (#[trigger] ms[i]).check(r) is Some implies exists|k: int|
                    0 <= k < idx.len() && idx[k] == i by {
                    if i < n {
                        assert(t[i] == ms[i]);
                        let k = choose|k: int| 0 <= k < prev.len() && prev[k] == i;
                        assert(idx[k] == i);
                    } else {
                        assert(idx[prev.len() as int] == i);
                    }
                }
                assert forall|k: int| 0 <= k < idx.len() implies ms[#[trigger] idx[k]].check(r)
                    == Some(reports(ms, r)[k]) by {
                    if k < prev.len() {
                        assert(t[prev[k]] == ms[prev[k]]);
                    }
                }
                idx
            },
            None => {
                assert forall|i: int|
                    0 <= i < ms.len() && (#[trigger] ms[i]).check(r) is Some implies exists|k: int|
                    0 <= k < prev.len() && prev[k] == i by {
                    assert(i < n);
                    assert(t[i] == ms[i]);
                }
                assert forall|k: int| 0 <= k < prev.len() implies ms[#[trigger] prev[k]].check(r)
                    == Some(reports(ms, r)[k]) by {
                    assert(t[prev[k]] == ms[prev[k]]);
                }
                prev
            },
        }
    }
}

impl Matchers {
    /// A set holding `inner`, in that order.
    pub fn new(inner: Vec<Matcher>) -> (r: Matchers)
        ensures
            r.inner == inner,
    {
        Matchers { inner }
    }

    /// Appends `matcher` after the expectations already held.
    pub fn add(&mut self, matcher: Matcher)
        ensures
            final(self).inner@ == old(self).inner@.push(matcher),
            final(self)@ == old(self)@.push(matcher@),
    {
        self.inner.push(matcher);
        assert(self@ =~= old(self)@.push(matcher@));
    }

    /// Whether `request` meets every expectation.
    pub fn is_matched(&self, request: &Request) -> (r: bool)
        ensures
            r == all_met(self@, request@),
            forall|i: int|
                0 <= i < self@.len() && (forall|j: int|
                    0 <= j < i ==> (#[trigger] self@[j]).check(request@) is None) ==> (
                (#[trigger] self@[i]) matches MatcherView::Method(e) ==> upper_on_ascii(
                    e,
                    upper_of(e),
                ) && upper_on_ascii(request@.method, upper_of(request@.method))),
    {
        let mut i: usize = 0;
        while i < self.inner.len()
            invariant
                i <= self@.len(),
                self@.len() == self.inner@.len(),
                forall|j: int| 0 <= j < i ==> (#[trigger] self@[j]).check(request@) is None,
                forall|j: int|
                    0 <= j < i ==> ((#[trigger] self@[j]) matches MatcherView::Method(e)
                        ==> upper_on_ascii(e, upper_of(e)) && upper_on_ascii(
                        request@.method,
                        upper_of(request@.method),
                    )),
            decreases self.inner@.len() - i,
        {
            let res = self.inner[i].validate(request);
            assert(self@[i as int] == self.inner@[i as int]@);
            if res.is_some() {
                assert forall|k: int|
                    0 <= k < self@.len() && (forall|j: int|
                        0 <= j < k ==> (#[trigger] self@[j]).check(request@) is None) implies (
                    (#[trigger] self@[k]) matches MatcherView::Method(e) ==> upper_on_ascii(
                        e,
                        upper_of(e),
                    ) && upper_on_ascii(request@.method, upper_of(request@.method))) by {
                    if k > i {
                        assert(self@[i as int].check(request@) is None);
                    }
                }
                return false;
            }
            i = i + 1;
        }
        true
    }

    /// `None` where `request` meets every expectation; otherwise the report
    /// of each expectation that it does not meet, in the order they were added.
    pub fn validate(&self, request: &Request) -> (r: Option<Vec<Matcher>>)
        ensures
            match r {
                Some(v) => v@.len() > 0 && v@.map_values(|m: Matcher| m@) == reports(
                    self@,
                    request@,
                ),
                None => reports(self@, request@).len() == 0,
            },
            forall|i: int|
                0 <= i < self@.len() ==> ((#[trigger] self@[i]) matches MatcherView::Method(e)
                    ==> upper_on_ascii(e, upper_of(e)) && upper_on_ascii(
                    request@.method,
                    upper_of(request@.method),
                )),
    {
        let mut out: Vec<Matcher> = Vec::new();
        let mut i: usize = 0;
        while i < self.inner.len()
            invariant
                i <= self@.len(),
                self@.len() == self.inner@.len(),
                out@.map_values(|m: Matcher| m@) == reports(self@.take(i as int), request@),
                forall|j: int|
                    0 <= j < i ==> ((#[trigger] self@[j]) matches MatcherView::Method(e)
                        ==> upper_on_ascii(e, upper_of(e)) && upper_on_ascii(
                        request@.method,
                        upper_of(request@.method),
                    )),
            decreases self.inner@.len() - i,
        {
            let ghost before = out@;
            assert(self@.take(i + 1).drop_last() =~= self@.take(i as int));
            assert(self@.take(i + 1).last() == self.inner@[i as int]@);
            match self.inner[i].validate(request) {
                Some(d) => {
                    out.push(d);
                    assert(out@.map_values(|m: Matcher| m@) =~= before.map_values(
                        |m: Matcher| m@,
                    ).push(d@));
                },
                None => {},
            }
            i = i + 1;
        }
        assert(self@.take(i as int) =~= self@);
        if out.len() == 0 {
            None
        } else {
            Some(out)
        }
    }
}

} // verus!
