use crate::jwks::text_is;
use crate::plan::PlanRead;
use crate::plan_type::PlanTypeRead;
use vstd::prelude::*;
use vstd::string::*;

verus! {

/// Filters of the catalog listing; `None` does not filter.
#[derive(Debug)]
pub struct PlanQuery {
    /// Kind names to keep: `booth`, `general`, `stage`, `labo`.
    pub plan_types: Option<Vec<String>>,
    pub recommended: Option<bool>,
    pub child_friendly: Option<bool>,
    /// Applies to lab plans only.
    pub lab_tour: Option<bool>,
    /// Whether schedules are shown combined.
    pub combine_schedule: bool,
}

/// The name of a plan's kind in queries.
pub open spec fn kind_name(t: PlanTypeRead) -> Seq<char> {
    match t {
        PlanTypeRead::Booth { .. } => "booth"@,
        PlanTypeRead::General { .. } => "general"@,
        PlanTypeRead::Stage {} => "stage"@,
        PlanTypeRead::Labo { .. } => "labo"@,
    }
}

pub open spec fn flag_matches(filter: Option<bool>, value: bool) -> bool {
    filter is None || filter == Some(value)
}

/// Whether a plan passes every filter of the query.
pub open spec fn query_matches(q: PlanQuery, p: PlanRead) -> bool {
    &&& flag_matches(q.recommended, p.is_recommended)
    &&& flag_matches(q.child_friendly, p.is_child_friendly)
    &&& (p.plan_type matches PlanTypeRead::Labo { is_lab_tour } ==> flag_matches(q.lab_tour, is_lab_tour))
    &&& (q.plan_types matches Some(ts) ==> exists|i: int| 0 <= i < ts@.len() && ts@[i]@ == kind_name(p.plan_type))
}

/// The plans that pass, in their order.
pub open spec fn selected(q: PlanQuery, s: Seq<PlanRead>) -> Seq<PlanRead>
    decreases s.len(),
{
    if s.len() == 0 {
        Seq::empty()
    } else if query_matches(q, s.last()) {
        selected(q, s.drop_last()).push(s.last())
    } else {
        selected(q, s.drop_last())
    }
}

/// The value of the last parameter named `key`.
pub open spec fn last_value(pairs: Seq<(String, String)>, key: Seq<char>) -> Option<Seq<char>>
    decreases pairs.len(),
{
    if pairs.len() == 0 {
        None
    } else if pairs.last().0@ == key {
        Some(pairs.last().1@)
    } else {
        last_value(pairs.drop_last(), key)
    }
}

pub open spec fn flag_param(pairs: Seq<(String, String)>, key: Seq<char>) -> Option<bool> {
    match last_value(pairs, key) {
        Some(v) => bool_text(v),
        None => None,
    }
}

/// The query that a list of URL parameters asks for.
pub open spec fn query_of(pairs: Seq<(String, String)>, q: PlanQuery) -> bool {
    &&& q.recommended == flag_param(pairs, "recommended"@)
    &&& q.child_friendly == flag_param(pairs, "child_friendly"@)
    &&& q.lab_tour == flag_param(pairs, "lab_tour"@)
    &&& q.combine_schedule == (flag_param(pairs, "combine_schedule"@) != Some(false))
    &&& match last_value(pairs, "type"@) {
        None => q.plan_types is None,
        Some(v) => q.plan_types matches Some(ts) && ts@.map_values(|x: String| x@) == comma_pieces(v),
    }
}

/// Reads `true` or `false`, as `bool`'s `FromStr` does.
pub open spec fn bool_text(s: Seq<char>) -> Option<bool> {
    if s == "true"@ {
        Some(true)
    } else if s == "false"@ {
        Some(false)
    } else {
        None
    }
}

pub fn parse_bool(s: &str) -> (r: Option<bool>)
    ensures
        r == bool_text(s@),
{
    if text_is(s, "true") {
        Some(true)
    } else if text_is(s, "false") {
        Some(false)
    } else {
        None
    }
}

/// The pieces of `s` between commas.
pub open spec fn comma_pieces(s: Seq<char>) -> Seq<Seq<char>>
    decreases s.len(),
{
    if s.len() == 0 {
        seq![Seq::empty()]
    } else {
        let p = comma_pieces(s.drop_last());
        if s.last() == ',' {
            p.push(Seq::empty())
        } else {
            p.update(p.len() - 1, p.last().push(s.last()))
        }
    }
}

proof fn lemma_comma_pieces_nonempty(s: Seq<char>)
    ensures
        comma_pieces(s).len() >= 1,
    decreases s.len(),
{
    if s.len() > 0 {
        lemma_comma_pieces_nonempty(s.drop_last());
    }
}

/// Splits at every comma, as `str::split(',')` does.
pub fn split_commas(s: &str) -> (r: Vec<String>)
    ensures
        r@.map_values(|x: String| x@) == comma_pieces(s@),
{
    let n = s.unicode_len();
    let mut pieces: Vec<String> = Vec::new();
    let mut start: usize = 0;
    let mut i: usize = 0;
    assert(s@.subrange(0, 0) =~= Seq::<char>::empty());
    assert(pieces@.map_values(|x: String| x@) =~= Seq::<Seq<char>>::empty());
    assert(comma_pieces(Seq::<char>::empty()) == seq![Seq::<char>::empty()]);
    assert(pieces@.map_values(|x: String| x@).push(s@.subrange(0, 0)) =~= comma_pieces(
        s@.subrange(0, 0),
    ));
    while i < n
        invariant
            start <= i <= n == s@.len(),
            pieces@.map_values(|x: String| x@).push(s@.subrange(start as int, i as int))
                == comma_pieces(s@.subrange(0, i as int)),
        decreases n - i,
    {
        proof {
            lemma_comma_pieces_nonempty(s@.subrange(0, i as int));
        }
        let ghost before = pieces@.map_values(|x: String| x@);
        let ghost prev = comma_pieces(s@.subrange(0, i as int));
        assert(s@.subrange(0, i + 1).drop_last() =~= s@.subrange(0, i as int));
        assert(s@.subrange(0, i + 1).last() == s@[i as int]);
        assert(prev == before.push(s@.subrange(start as int, i as int)));
        if s.get_char(i) == ',' {
            pieces.push(String::from_str(s.substring_char(start, i)));
            assert(pieces@.map_values(|x: String| x@) =~= before.push(s@.subrange(start as int, i as int)));
            start = i + 1;
            assert(s@.subrange(start as int, i + 1) =~= Seq::<char>::empty());
            assert(pieces@.map_values(|x: String| x@).push(s@.subrange(start as int, i + 1)) =~= comma_pieces(
                s@.subrange(0, i + 1),
            ));
        } else {
            assert(s@.subrange(start as int, i + 1) =~= s@.subrange(start as int, i as int).push(
                s@[i as int],
            ));
            assert(prev.last() == s@.subrange(start as int, i as int));
            assert(before.push(s@.subrange(start as int, i + 1)) =~= prev.update(
                prev.len() - 1,
                prev.last().push(s@[i as int]),
            ));
        }
        i = i + 1;
    }
    pieces.push(String::from_str(s.substring_char(start, n)));
    assert(s@.subrange(0, n as int) =~= s@);
    assert(pieces@.map_values(|x: String| x@) =~= comma_pieces(s@));
    pieces
}

fn kind_name_of(t: &PlanTypeRead) -> (r: &'static str)
    ensures
        r@ == kind_name(*t),
{
    match t {
        PlanTypeRead::Booth { .. } => "booth",
        PlanTypeRead::General { .. } => "general",
        PlanTypeRead::Stage {} => "stage",
        PlanTypeRead::Labo { .. } => "labo",
    }
}

fn contains_text(v: &Vec<String>, s: &str) -> (r: bool)
    ensures
        r == exists|i: int| 0 <= i < v@.len() && v@[i]@ == s@,
{
    let mut i: usize = 0;
    while i < v.len()
        invariant
            i <= v@.len(),
            forall|j: int| 0 <= j < i ==> v@[j]@ != s@,
        decreases v.len() - i,
    {
        if text_is(v[i].as_str(), s) {
            return true;
        }
        i = i + 1;
    }
    false
}

fn flag_ok(filter: Option<bool>, value: bool) -> (r: bool)
    ensures
        r == flag_matches(filter, value),
{
    match filter {
        None => true,
        Some(f) => f == value,
    }
}

impl PlanQuery {
    /// The query of the listing's URL parameters: `type` (comma-separated
    /// kinds), `recommended`, `child_friendly`, `lab_tour`, and
    /// `combine_schedule` (true unless it reads `false`). A flag that is not
    /// `true` or `false` does not filter; a later parameter overrides an earlier.
    pub fn from_pairs(pairs: &Vec<(String, String)>) -> (r: PlanQuery)
        ensures
            query_of(pairs@, r),
    {
        let mut q = PlanQuery {
            plan_types: None,
            recommended: None,
            child_friendly: None,
            lab_tour: None,
            combine_schedule: true,
        };
        let mut i: usize = 0;
        while i < pairs.len()
            invariant
                i <= pairs@.len(),
                query_of(pairs@.subrange(0, i as int), q),
            decreases pairs.len() - i,
        {
            assert(pairs@.subrange(0, i + 1).drop_last() =~= pairs@.subrange(0, i as int));
            assert(pairs@.subrange(0, i + 1).last() == pairs@[i as int]);
            proof {
                reveal_strlit("type");
                reveal_strlit("recommended");
                reveal_strlit("child_friendly");
                reveal_strlit("lab_tour");
                reveal_strlit("combine_schedule");
                assert("type"@.len() == 4);
                assert("recommended"@.len() == 11);
                assert("child_friendly"@.len() == 14);
                assert("lab_tour"@.len() == 8);
                assert("combine_schedule"@.len() == 16);
            }
            let key = pairs[i].0.as_str();
            let value = pairs[i].1.as_str();
            if text_is(key, "type") {
                q.plan_types = Some(split_commas(value));
            } else if text_is(key, "recommended") {
                q.recommended = parse_bool(value);
            } else if text_is(key, "child_friendly") {
                q.child_friendly = parse_bool(value);
            } else if text_is(key, "lab_tour") {
                q.lab_tour = parse_bool(value);
            } else if text_is(key, "combine_schedule") {
                q.combine_schedule = match parse_bool(value) {
                    Some(b) => b,
                    None => true,
                };
            }
            i = i + 1;
        }
        assert(pairs@.subrange(0, i as int) =~= pairs@);
        q
    }

    /// Whether `plan` passes every filter.
    pub fn matches(&self, plan: &PlanRead) -> (r: bool)
        ensures
            r == query_matches(*self, *plan),
    {
        let mut ok = flag_ok(self.recommended, plan.is_recommended) && flag_ok(
            self.child_friendly,
            plan.is_child_friendly,
        );
        if let PlanTypeRead::Labo { is_lab_tour } = plan.plan_type {
            ok = ok && flag_ok(self.lab_tour, is_lab_tour);
        }
        match &self.plan_types {
            None => ok,
            Some(types) => ok && contains_text(types, kind_name_of(&plan.plan_type)),
        }
    }

    /// The plans that pass, in their order.
    pub fn filter(&self, plans: Vec<PlanRead>) -> (r: Vec<PlanRead>)
        ensures
            r@ == selected(*self, plans@),
    {
        let ghost all = plans@;
        let mut rest = plans;
        let mut out: Vec<PlanRead> = Vec::new();
        let n = rest.len();
        let mut i: usize = 0;
        while i < n
            invariant
                i <= n == all.len(),
                rest@ == all.subrange(i as int, n as int),
                out@ == selected(*self, all.subrange(0, i as int)),
            decreases n - i,
        {
            let p = rest.remove(0);
            assert(all[i as int] == p);
            assert(all.subrange(0, i + 1).drop_last() =~= all.subrange(0, i as int));
            if self.matches(&p) {
                out.push(p);
            }
            i = i + 1;
            assert(rest@ =~= all.subrange(i as int, n as int));
        }
        assert(all.subrange(0, n as int) =~= all);
        out
    }
}

} // verus!
