use vstd::prelude::*;
use vstd::string::*;

verus! {

/// Minutes in one day; every `Time` is below this.
pub const MINUTES_PER_DAY: u16 = 1440;

/// A time of day with minute precision, held as minutes since midnight.
#[derive(Clone, Copy, PartialEq, Eq, Structural, PartialOrd, Ord, Debug, Hash)]
pub struct Time(u16);

impl View for Time {
    type V = nat;

    closed spec fn view(&self) -> nat {
        self.0 as nat
    }
}

impl Time {
    #[verifier::type_invariant]
    closed spec fn inv(self) -> bool {
        self.0 < MINUTES_PER_DAY
    }

    /// The time `hour:minute`, when both parts are in range.
    pub fn new(hour: u8, minute: u8) -> (r: Option<Time>)
        ensures
            (hour < 24 && minute < 60) == r.is_some(),
            r matches Some(t) ==> t@ == hour as nat * 60 + minute as nat,
    {
        if hour < 24 && minute < 60 {
            Some(Time(hour as u16 * 60 + minute as u16))
        } else {
            None
        }
    }

    /// Minutes since midnight.
    pub fn minutes(&self) -> (r: u16)
        ensures
            r as nat == self@,
            r < 1440,
    {
        proof {
            use_type_invariant(self);
        }
        self.0
    }

    /// The hour part, `0..24`.
    pub fn hour(&self) -> (r: u8)
        ensures
            r as nat == self@ / 60,
            r < 24,
    {
        proof {
            use_type_invariant(self);
        }
        (self.0 / 60) as u8
    }

    /// Reads `HH:mm`: one `:` between an hour below 24 and a minute below 60,
    /// each written as `u8`'s `FromStr` accepts it.
    pub fn parse_hhmm(s: &str) -> (r: Option<Time>)
        ensures
            r is Some <==> (hhmm_parts(s@) matches Some((h, m)) && h < 24 && m < 60),
            r matches Some(t) ==> hhmm_parts(s@) matches Some((h, m)) && t@ == h as nat * 60
                + m as nat,
    {
        let n = s.unicode_len();
        let mut chars: Vec<char> = Vec::new();
        let mut colons: usize = 0;
        let mut at: usize = 0;
        let mut i: usize = 0;
        while i < n
            invariant
                i <= n == s@.len(),
                chars@ == s@.subrange(0, i as int),
                colons == colon_count(chars@),
                colons <= i,
                colons >= 1 ==> at < i && chars@[at as int] == ':',
                colons == 0 ==> forall|j: int| 0 <= j < i ==> chars@[j] != ':',
                colons == 1 ==> forall|j: int| 0 <= j < i && j != at ==> chars@[j] != ':',
            decreases n - i,
        {
            let c = s.get_char(i);
            let ghost before = chars@;
            chars.push(c);
            assert(chars@.drop_last() =~= before);
            if c == ':' {
                if colons == 0 {
                    at = i;
                }
                colons = colons + 1;
            }
            i = i + 1;
            assert(chars@ =~= s@.subrange(0, i as int));
        }
        assert(chars@ =~= s@);
        if colons != 1 {
            return None;
        }
        proof {
            let k = choose|k: int| 0 <= k < s@.len() && s@[k] == ':';
            assert(k == at);
        }
        let h = match parse_u8(&chars, 0, at) {
            Some(h) => h,
            None => {
                return None;
            },
        };
        let m = match parse_u8(&chars, at + 1, n) {
            Some(m) => m,
            None => {
                return None;
            },
        };
        Time::new(h, m)
    }

    /// The time as `HH:mm`.
    pub fn to_hhmm(&self) -> (r: String)
        ensures
            r@ == hhmm_text(self@),
    {
        let h = self.hour();
        let m = self.minute();
        let mut r = String::from_str(digit_text(h / 10));
        r.append(digit_text(h % 10));
        r.append(":");
        r.append(digit_text(m / 10));
        r.append(digit_text(m % 10));
        proof {
            reveal_strlit(":");
        }
        assert(r@ =~= hhmm_text(self@));
        r
    }

    /// The minute part, `0..60`.
    pub fn minute(&self) -> (r: u8)
        ensures
            r as nat == self@ % 60,
            r < 60,
    {
        (self.0 % 60) as u8
    }
}

/// The decimal digit `d`.
pub open spec fn digit_char(d: nat) -> char {
    "0123456789"@[d as int]
}

/// `HH:mm` for a minute of the day.
pub open spec fn hhmm_text(t: nat) -> Seq<char> {
    seq![
        digit_char(t / 60 / 10),
        digit_char(t / 60 % 10),
        ':',
        digit_char(t % 60 / 10),
        digit_char(t % 60 % 10),
    ]
}

fn digit_text(d: u8) -> (r: &'static str)
    requires
        d < 10,
    ensures
        r@ == seq![digit_char(d as nat)],
{
    let digits: &'static str = "0123456789";
    proof {
        reveal_strlit("0123456789");
    }
    let r = digits.substring_char(d as usize, d as usize + 1);
    assert(r@ =~= seq![digit_char(d as nat)]);
    r
}

/// The value of a string of decimal digits.
pub open spec fn digits_value(s: Seq<char>) -> int
    decreases s.len(),
{
    if s.len() == 0 {
        0
    } else {
        digits_value(s.drop_last()) * 10 + (s.last() as int - '0' as int)
    }
}

pub open spec fn all_digits(s: Seq<char>) -> bool {
    forall|i: int| 0 <= i < s.len() ==> '0' <= #[trigger] s[i] <= '9'
}

/// A `u8` written in decimal, as `u8`'s `FromStr` reads it: an optional `+`,
/// then at least one digit, with a value below 256.
pub open spec fn u8_text(s: Seq<char>) -> Option<u8> {
    let d = if s.len() > 0 && s[0] == '+' {
        s.drop_first()
    } else {
        s
    };
    if d.len() > 0 && all_digits(d) && digits_value(d) < 256 {
        Some(digits_value(d) as u8)
    } else {
        None
    }
}

/// The number of `:` in a string.
pub open spec fn colon_count(s: Seq<char>) -> nat
    decreases s.len(),
{
    if s.len() == 0 {
        0
    } else {
        colon_count(s.drop_last()) + if s.last() == ':' {
            1nat
        } else {
            0nat
        }
    }
}

/// `HH:mm` read as hour and minute: exactly one `:`, each side a `u8`.
pub open spec fn hhmm_parts(s: Seq<char>) -> Option<(u8, u8)> {
    if colon_count(s) != 1 {
        None
    } else {
        let k = choose|k: int| 0 <= k < s.len() && s[k] == ':';
        match (u8_text(s.subrange(0, k)), u8_text(s.subrange(k + 1, s.len() as int))) {
            (Some(h), Some(m)) => Some((h, m)),
            _ => None,
        }
    }
}

proof fn lemma_digits_value_grows(s: Seq<char>, i: int)
    requires
        all_digits(s),
        0 <= i <= s.len(),
    ensures
        digits_value(s.subrange(0, i)) <= digits_value(s),
        digits_value(s) >= 0,
    decreases s.len(),
{
    if s.len() > 0 {
        let r = s.drop_last();
        assert(all_digits(r)) by {
            assert forall|j: int| 0 <= j < r.len() implies '0' <= #[trigger] r[j] <= '9' by {
                assert(r[j] == s[j]);
            }
        }
        assert(s[s.len() - 1] == s.last());
        if i == s.len() {
            assert(s.subrange(0, i) =~= s);
            lemma_digits_value_grows(r, r.len() as int);
        } else {
            assert(s.subrange(0, i) =~= r.subrange(0, i));
            lemma_digits_value_grows(r, i);
        }
    } else {
        assert(s.subrange(0, i) =~= s);
    }
}

/// Reads a `u8` from `s[from..to]`.
fn parse_u8(s: &Vec<char>, from: usize, to: usize) -> (r: Option<u8>)
    requires
        from <= to <= s@.len(),
    ensures
        r == u8_text(s@.subrange(from as int, to as int)),
{
    let ghost t = s@.subrange(from as int, to as int);
    let mut start = from;
    if from < to && s[from] == '+' {
        start = from + 1;
    }
    let ghost d = s@.subrange(start as int, to as int);
    assert(d =~= (if t.len() > 0 && t[0] == '+' {
        t.drop_first()
    } else {
        t
    }));
    if start == to {
        return None;
    }
    let mut value: u32 = 0;
    let mut i = start;
    while i < to
        invariant
            start <= i <= to <= s@.len(),
            d == s@.subrange(start as int, to as int),
            t == s@.subrange(from as int, to as int),
            d.len() > 0,
            d == (if t.len() > 0 && t[0] == '+' {
                t.drop_first()
            } else {
                t
            }),
            all_digits(s@.subrange(start as int, i as int)),
            value as int == digits_value(s@.subrange(start as int, i as int)),
            value < 256,
        decreases to - i,
    {
        let c = s[i];
        assert(s@.subrange(start as int, i + 1).drop_last() =~= s@.subrange(start as int, i as int));
        if c < '0' || c > '9' {
            assert(!all_digits(d)) by {
                assert(d[i - start] == c);
            }
            return None;
        }
        value = value * 10 + (c as u32 - '0' as u32);
        i = i + 1;
        if value > 255 {
            proof {
                if all_digits(d) {
                    lemma_digits_value_grows(d, i - start);
                    assert(d.subrange(0, i - start) =~= s@.subrange(start as int, i as int));
                }
            }
            return None;
        }
    }
    assert(d =~= s@.subrange(start as int, i as int));
    Some(value as u8)
}

/// One time range within a festival day.
#[derive(Clone, Copy, PartialEq, Eq, Structural, Debug)]
pub struct DaySchedule {
    pub start_time: Time,
    pub end_time: Time,
}

/// Canonical schedule as supplied on creation: the ranges of each day.
#[derive(Clone, Debug)]
pub struct ScheduleCreate {
    pub day1: Vec<DaySchedule>,
    pub day2: Vec<DaySchedule>,
}

/// A stored or displayed schedule, either combined (one range per day at
/// most) or canonical (any number of ranges per day).
#[derive(Clone, Debug)]
pub enum ScheduleRead {
    Combined { day1: Option<DaySchedule>, day2: Option<DaySchedule> },
    NotCombined { day1: Vec<DaySchedule>, day2: Vec<DaySchedule> },
}

/// Partial update of a schedule: an outer `None` leaves a day untouched.
#[derive(Clone, Debug)]
pub struct ScheduleUpdate {
    pub day1: Option<Option<Vec<DaySchedule>>>,
    pub day2: Option<Option<Vec<DaySchedule>>>,
}

/// The mathematical value of a `ScheduleRead`.
pub enum ScheduleView {
    Combined { day1: Option<DaySchedule>, day2: Option<DaySchedule> },
    NotCombined { day1: Seq<DaySchedule>, day2: Seq<DaySchedule> },
}

impl View for ScheduleRead {
    type V = ScheduleView;

    open spec fn view(&self) -> ScheduleView {
        match self {
            ScheduleRead::Combined { day1, day2 } => ScheduleView::Combined {
                day1: *day1,
                day2: *day2,
            },
            ScheduleRead::NotCombined { day1, day2 } => ScheduleView::NotCombined {
                day1: day1@,
                day2: day2@,
            },
        }
    }
}

/// The earliest start among the ranges of a non-empty day.
pub open spec fn earliest_start(day: Seq<DaySchedule>) -> Time
    decreases day.len(),
{
    if day.len() <= 1 {
        day[0].start_time
    } else {
        let rest = earliest_start(day.drop_last());
        if day.last().start_time@ < rest@ {
            day.last().start_time
        } else {
            rest
        }
    }
}

/// The latest end among the ranges of a non-empty day.
pub open spec fn latest_end(day: Seq<DaySchedule>) -> Time
    decreases day.len(),
{
    if day.len() <= 1 {
        day[0].end_time
    } else {
        let rest = latest_end(day.drop_last());
        if day.last().end_time@ > rest@ {
            day.last().end_time
        } else {
            rest
        }
    }
}

/// The single range that covers a day: from its earliest start to its latest
/// end, or none for a day without ranges.
pub open spec fn day_span(day: Seq<DaySchedule>) -> Option<DaySchedule> {
    if day.len() == 0 {
        None
    } else {
        Some(DaySchedule { start_time: earliest_start(day), end_time: latest_end(day) })
    }
}

/// A day in canonical form from its display form.
pub open spec fn day_ranges(day: Option<DaySchedule>) -> Seq<DaySchedule> {
    match day {
        Some(d) => seq![d],
        None => Seq::empty(),
    }
}

pub open spec fn combine_view(s: ScheduleView) -> ScheduleView {
    match s {
        ScheduleView::Combined { day1, day2 } => ScheduleView::Combined { day1, day2 },
        ScheduleView::NotCombined { day1, day2 } => ScheduleView::Combined {
            day1: day_span(day1),
            day2: day_span(day2),
        },
    }
}

pub open spec fn uncombine_view(s: ScheduleView) -> ScheduleView {
    match s {
        ScheduleView::Combined { day1, day2 } => ScheduleView::NotCombined {
            day1: day_ranges(day1),
            day2: day_ranges(day2),
        },
        ScheduleView::NotCombined { day1, day2 } => ScheduleView::NotCombined { day1, day2 },
    }
}

/// The span of a day reaches from the least start to the greatest end: both
/// bounds come from ranges of the day and no range starts earlier or ends later.
pub proof fn lemma_span_bounds(day: Seq<DaySchedule>)
    requires
        day.len() > 0,
    ensures
        exists|i: int| 0 <= i < day.len() && day[i].start_time == earliest_start(day),
        exists|i: int| 0 <= i < day.len() && day[i].end_time == latest_end(day),
        forall|i: int| 0 <= i < day.len() ==> earliest_start(day)@ <= #[trigger] day[i].start_time@,
        forall|i: int| 0 <= i < day.len() ==> latest_end(day)@ >= #[trigger] day[i].end_time@,
    decreases day.len(),
{
    if day.len() <= 1 {
        assert(day[0].start_time == earliest_start(day));
        assert(day[0].end_time == latest_end(day));
    } else {
        let rest = day.drop_last();
        lemma_span_bounds(rest);
        let n = day.len() - 1;
        assert forall|i: int| 0 <= i < day.len() implies earliest_start(day)@
            <= #[trigger] day[i].start_time@ by {
            if i < n {
                assert(rest[i] == day[i]);
            }
        }
        assert forall|i: int| 0 <= i < day.len() implies latest_end(day)@
            >= #[trigger] day[i].end_time@ by {
            if i < n {
                assert(rest[i] == day[i]);
                assert(latest_end(rest)@ >= day[i].end_time@);
            } else {
                assert(day.last() == day[i]);
            }
        }
        if day.last().start_time@ < earliest_start(rest)@ {
            assert(day[n].start_time == earliest_start(day));
        } else {
            let i = choose|i: int| 0 <= i < rest.len() && rest[i].start_time == earliest_start(rest);
            assert(day[i].start_time == earliest_start(day));
        }
        if day.last().end_time@ > latest_end(rest)@ {
            assert(day[n].end_time == latest_end(day));
        } else {
            let i = choose|i: int| 0 <= i < rest.len() && rest[i].end_time == latest_end(rest);
            assert(day[i].end_time == latest_end(day));
        }
    }
}

/// Uncombining a combined schedule and combining it again gives the same
/// combined schedule back.
pub proof fn lemma_combine_after_uncombine(s: ScheduleView)
    requires
        s is Combined,
    ensures
        combine_view(uncombine_view(s)) == s,
{
}

/// A canonical schedule with at most one range on each day comes back
/// unchanged from combining and then uncombining.
pub proof fn lemma_uncombine_after_combine_single(s: ScheduleView)
    requires
        s matches ScheduleView::NotCombined { day1, day2 } && day1.len() <= 1 && day2.len() <= 1,
    ensures
        uncombine_view(combine_view(s)) == s,
{
    if let ScheduleView::NotCombined { day1, day2 } = s {
        assert(day_ranges(day_span(day1)) =~= day1);
        assert(day_ranges(day_span(day2)) =~= day2);
    }
}

/// Combining and then uncombining is lossy: a day with several ranges comes
/// back as the one range that spans them all.
pub proof fn lemma_uncombine_after_combine_collapses(day1: Seq<DaySchedule>, day2: Seq<DaySchedule>)
    requires
        day1.len() > 1,
    ensures
        uncombine_view(combine_view(ScheduleView::NotCombined { day1, day2 })) matches
            ScheduleView::NotCombined { day1: d1, .. } && d1.len() == 1 && d1 != day1
            && d1[0].start_time == earliest_start(day1) && d1[0].end_time == latest_end(day1),
{
}

fn copy_ranges(day: &Vec<DaySchedule>) -> (r: Vec<DaySchedule>)
    ensures
        r@ == day@,
{
    let mut r: Vec<DaySchedule> = Vec::new();
    let mut i: usize = 0;
    while i < day.len()
        invariant
            i <= day.len(),
            r@ == day@.subrange(0, i as int),
        decreases day.len() - i,
    {
        r.push(day[i]);
        i = i + 1;
        assert(r@ =~= day@.subrange(0, i as int));
    }
    assert(r@ =~= day@);
    r
}

fn day_span_of(day: &Vec<DaySchedule>) -> (r: Option<DaySchedule>)
    ensures
        r == day_span(day@),
{
    if day.len() == 0 {
        None
    } else {
        Some(ScheduleRead::combine_schedule(day))
    }
}

fn ranges_of(day: &Option<DaySchedule>) -> (r: Vec<DaySchedule>)
    ensures
        r@ == day_ranges(*day),
{
    match day {
        None => Vec::new(),
        Some(d) => {
            let mut v: Vec<DaySchedule> = Vec::new();
            v.push(*d);
            assert(v@ =~= seq![*d]);
            v
        },
    }
}

impl ScheduleRead {
    /// The combined display form: each day collapsed to the range from its
    /// earliest start to its latest end, or none for a day without ranges.
    pub fn combine(&self) -> (r: ScheduleRead)
        ensures
            r@ == combine_view(self@),
    {
        match self {
            ScheduleRead::Combined { day1, day2 } => ScheduleRead::Combined {
                day1: *day1,
                day2: *day2,
            },
            ScheduleRead::NotCombined { day1, day2 } => ScheduleRead::Combined {
                day1: day_span_of(day1),
                day2: day_span_of(day2),
            },
        }
    }

    pub fn combine_mut(&mut self)
        ensures
            final(self)@ == combine_view(old(self)@),
    {
        *self = self.combine()
    }

    /// The canonical form: an absent day becomes no ranges, a present one a
    /// single range.
    pub fn uncombine(&self) -> (r: ScheduleRead)
        ensures
            r@ == uncombine_view(self@),
    {
        match self {
            ScheduleRead::Combined { day1, day2 } => {
                let day1 = ranges_of(day1);
                let day2 = ranges_of(day2);
                ScheduleRead::NotCombined { day1, day2 }
            },
            ScheduleRead::NotCombined { day1, day2 } => ScheduleRead::NotCombined {
                day1: copy_ranges(day1),
                day2: copy_ranges(day2),
            },
        }
    }

    pub fn uncombine_mut(&mut self)
        ensures
            final(self)@ == uncombine_view(old(self)@),
    {
        *self = self.uncombine()
    }

    /// The range from the earliest start to the latest end of a non-empty day.
    pub fn combine_schedule(day: &Vec<DaySchedule>) -> (r: DaySchedule)
        requires
            day@.len() > 0,
        ensures
            r.start_time == earliest_start(day@),
            r.end_time == latest_end(day@),
    {
        let mut start_time = day[0].start_time;
        let mut end_time = day[0].end_time;
        let mut i: usize = 1;
        assert(day@.subrange(0, 1).drop_last().len() == 0);
        while i < day.len()
            invariant
                1 <= i <= day.len(),
                start_time == earliest_start(day@.subrange(0, i as int)),
                end_time == latest_end(day@.subrange(0, i as int)),
            decreases day.len() - i,
        {
            let s = day[i];
            assert(day@.subrange(0, i + 1).drop_last() =~= day@.subrange(0, i as int));
            if s.start_time.minutes() < start_time.minutes() {
                start_time = s.start_time;
            }
            if s.end_time.minutes() > end_time.minutes() {
                end_time = s.end_time;
            }
            i = i + 1;
        }
        assert(day@.subrange(0, i as int) =~= day@);
        DaySchedule { start_time, end_time }
    }
}

impl From<ScheduleCreate> for ScheduleRead {
    fn from(s: ScheduleCreate) -> (r: ScheduleRead) {
        ScheduleRead::NotCombined { day1: s.day1, day2: s.day2 }
    }
}

impl vstd::std_specs::convert::FromSpecImpl<ScheduleCreate> for ScheduleRead {
    open spec fn obeys_from_spec() -> bool {
        true
    }

    open spec fn from_spec(s: ScheduleCreate) -> ScheduleRead {
        ScheduleRead::NotCombined { day1: s.day1, day2: s.day2 }
    }
}

} // verus!
