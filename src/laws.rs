//! Laws that relate the parser, the canonical text, the renderer's model and
//! the engine.
use crate::calendar::DateTime;
use crate::cron::{canonical, canonical_schedule, join_decimals, parse_schedule, Pattern, ScheduleView};
use crate::engine::{is_next_occurrence, never_fires_from, start_key};
use crate::parser::{lemma_parsed_wf, parse_field, resolve, resolve_all, resolve_step, FieldKind};
use crate::text::{
    all_digits, decimal, is_blank, is_digit, lemma_decimal_numeral, lemma_digits_exclude,
    lemma_split_append, lemma_split_nonempty, lemma_split_plain, lemma_words_append,
    lemma_words_single, no_blanks, numeral, split, words,
};
use vstd::prelude::*;

verus! {

proof fn lemma_split_contains(s: Seq<char>, sep: char)
    requires
        s.contains(sep),
    ensures
        split(s, sep).len() >= 2,
    decreases s.len(),
{
    lemma_split_nonempty(s.drop_last(), sep);
    if s.last() != sep {
        let i = choose|i: int| 0 <= i < s.len() && s[i] == sep;
        assert(i < s.len() - 1);
        assert(s.drop_last()[i] == sep);
        lemma_split_contains(s.drop_last(), sep);
    }
}

proof fn lemma_resolve_decimal(n: int, kind: FieldKind)
    requires
        kind.lo() <= n <= kind.hi(),
    ensures
        resolve(decimal(n as nat), kind) == Ok::<int, crate::parser::ErrorKind>(n),
        n >= 1 ==> resolve_step(decimal(n as nat), kind) == Ok::<int, crate::parser::ErrorKind>(n),
{
    lemma_decimal_numeral(n as nat);
}

spec fn decimals(vs: Seq<int>) -> Seq<Seq<char>> {
    vs.map_values(|v: int| decimal(v as nat))
}

proof fn lemma_join_split(vs: Seq<int>)
    requires
        vs.len() >= 1,
        forall|i: int| 0 <= i < vs.len() ==> vs[i] >= 0,
    ensures
        split(join_decimals(vs), ',') == decimals(vs),
        forall|i: int|
            0 <= i < join_decimals(vs).len() ==> is_digit(#[trigger] join_decimals(vs)[i])
                || join_decimals(vs)[i] == ',',
        vs.len() >= 2 ==> join_decimals(vs).contains(','),
    decreases vs.len(),
{
    let j = join_decimals(vs);
    if vs.len() == 1 {
        lemma_decimal_numeral(vs[0] as nat);
        lemma_digits_exclude(decimal(vs[0] as nat), ',');
        lemma_split_plain(decimal(vs[0] as nat), ',');
        assert(decimals(vs) =~= seq![decimal(vs[0] as nat)]);
    } else {
        let init = vs.drop_last();
        lemma_join_split(init);
        let d = decimal(vs.last() as nat);
        lemma_decimal_numeral(vs.last() as nat);
        lemma_digits_exclude(d, ',');
        lemma_split_append(join_decimals(init), d, ',');
        assert(decimals(vs) =~= decimals(init).push(d));
        let ji = join_decimals(init);
        assert(j == ji + seq![','] + d);
        assert forall|i: int| 0 <= i < j.len() implies is_digit(#[trigger] j[i]) || j[i] == ',' by {
            if i < ji.len() {
                assert(j[i] == ji[i]);
            } else if i > ji.len() {
                assert(j[i] == d[i - ji.len() - 1]);
            }
        }
        assert(j[ji.len() as int] == ',');
    }
}

proof fn lemma_resolve_decimals(vs: Seq<int>, kind: FieldKind)
    requires
        forall|i: int| 0 <= i < vs.len() ==> kind.lo() <= #[trigger] vs[i] <= kind.hi(),
        kind.lo() >= 0,
    ensures
        resolve_all(decimals(vs), kind) == Ok::<Seq<int>, crate::parser::ErrorKind>(vs),
    decreases vs.len(),
{
    if vs.len() > 0 {
        lemma_resolve_decimal(vs[0], kind);
        assert(decimals(vs).drop_first() =~= decimals(vs.drop_first()));
        lemma_resolve_decimals(vs.drop_first(), kind);
        assert(seq![vs[0]] + vs.drop_first() =~= vs);
    } else {
        assert(vs =~= Seq::<int>::empty());
    }
}

/// A string made of digits and the given separators holds no other character.
proof fn lemma_only(s: Seq<char>, a: char, b: char, c: char)
    requires
        forall|i: int| 0 <= i < s.len() ==> is_digit(#[trigger] s[i]) || s[i] == a || s[i] == b,
        !is_digit(c),
        c != a,
        c != b,
    ensures
        !s.contains(c),
{
}

/// The canonical text of a valid field value parses back to that value.
proof fn lemma_canonical_parses(p: Pattern, kind: FieldKind)
    requires
        p.wf(kind.lo(), kind.hi()),
        p is List ==> p->List_0.len() >= 2,
    ensures
        parse_field(canonical(p), kind) == Ok::<Pattern, crate::parser::ErrorKind>(p),
{
    let t = canonical(p);
    match p {
        Pattern::Wildcard => {
            assert(t[0] == '*');
            lemma_only(t, '*', '*', '-');
            lemma_only(t, '*', '*', '/');
            lemma_only(t, '*', '*', ',');
        },
        Pattern::Single(v) => {
            lemma_resolve_decimal(v, kind);
            lemma_decimal_numeral(v as nat);
            lemma_digits_exclude(t, '-');
            lemma_digits_exclude(t, '/');
            lemma_digits_exclude(t, ',');
            assert(is_digit(t[0]));
        },
        Pattern::List(vs) => {
            assert forall|i: int| 0 <= i < vs.len() implies vs[i] >= 0 by {}
            lemma_join_split(vs);
            lemma_only(t, ',', ',', '-');
            lemma_only(t, ',', ',', '/');
            lemma_resolve_decimals(vs, kind);
        },
        Pattern::Range(a, b, step) => {
            let da = decimal(a as nat);
            let db = decimal(b as nat);
            lemma_resolve_decimal(a, kind);
            lemma_resolve_decimal(b, kind);
            lemma_decimal_numeral(a as nat);
            lemma_decimal_numeral(b as nat);
            lemma_digits_exclude(da, '-');
            lemma_digits_exclude(db, '-');
            lemma_digits_exclude(da, '/');
            lemma_digits_exclude(db, '/');
            let x = da + seq!['-'] + db;
            lemma_split_plain(da, '-');
            lemma_split_append(da, db, '-');
            assert(seq![da].push(db) =~= seq![da, db]);
            assert(x[da.len() as int] == '-');
            assert forall|i: int| 0 <= i < x.len() implies is_digit(#[trigger] x[i]) || x[i] == '-' || x[i] == '-' by {
                if i < da.len() {
                    assert(x[i] == da[i]);
                } else if i > da.len() {
                    assert(x[i] == db[i - da.len() - 1]);
                }
            }
            lemma_only(x, '-', '-', '/');
            match step {
                None => {
                    lemma_split_plain(x, '/');
                },
                Some(s) => {
                    let ds = decimal(s as nat);
                    lemma_resolve_decimal(s, kind);
                    lemma_decimal_numeral(s as nat);
                    lemma_digits_exclude(ds, '/');
                    lemma_split_plain(x, '/');
                    lemma_split_append(x, ds, '/');
                    assert(seq![x].push(ds) =~= seq![x, ds]);
                    assert(t =~= x + seq!['/'] + ds);
                    assert(t[da.len() as int] == '-');
                },
            }
        },
        Pattern::Step(start, s) => {
            let ds = decimal(s as nat);
            lemma_resolve_decimal(s, kind);
            lemma_decimal_numeral(s as nat);
            lemma_digits_exclude(ds, '/');
            let head = match start {
                Some(a) => decimal(a as nat),
                None => seq!['*'],
            };
            assert(t =~= head + seq!['/'] + ds);
            match start {
                Some(a) => {
                    lemma_resolve_decimal(a, kind);
                    lemma_decimal_numeral(a as nat);
                    lemma_digits_exclude(head, '/');
                    assert(is_digit(head[0]));
                },
                None => {
                    assert(head[0] == '*');
                    lemma_only(head, '*', '*', '/');
                },
            }
            lemma_split_plain(head, '/');
            lemma_split_append(head, ds, '/');
            assert(seq![head].push(ds) =~= seq![head, ds]);
            assert(t[head.len() as int] == '/');
            assert forall|i: int| 0 <= i < t.len() implies is_digit(#[trigger] t[i]) || t[i] == '*' || t[i] == '/' by {
                if i < head.len() {
                    assert(t[i] == head[i]);
                    if start is Some {
                        assert(is_digit(head[i]));
                    }
                } else if i > head.len() {
                    assert(t[i] == ds[i - head.len() - 1]);
                }
            }
            lemma_only(t, '*', '/', '-');
        },
    }
}

/// Round trip: the canonical text of a parsed field parses back to the same
/// field value.
pub proof fn lemma_canonical_round_trip(t: Seq<char>, kind: FieldKind)
    requires
        parse_field(t, kind) is Ok,
    ensures
        parse_field(canonical(parse_field(t, kind)->Ok_0), kind) == parse_field(t, kind),
{
    let p = parse_field(t, kind)->Ok_0;
    lemma_parsed_wf(t, kind);
    if p is List {
        lemma_split_contains(t, ',');
        lemma_resolve_all_len(split(t, ','), kind);
    }
    lemma_canonical_parses(p, kind);
}

proof fn lemma_resolve_all_len(parts: Seq<Seq<char>>, kind: FieldKind)
    ensures
        resolve_all(parts, kind) matches Ok(vs) ==> vs.len() == parts.len(),
    decreases parts.len(),
{
    if parts.len() > 0 {
        lemma_resolve_all_len(parts.drop_first(), kind);
    }
}

/// Every value that a parsed field matches lies in the field's domain.
pub proof fn lemma_parsed_in_domain(t: Seq<char>, kind: FieldKind, x: int)
    requires
        parse_field(t, kind) is Ok,
        parse_field(t, kind)->Ok_0.matches(x, kind.lo(), kind.hi()),
    ensures
        kind.lo() <= x <= kind.hi(),
{
    lemma_parsed_wf(t, kind);
    if let Pattern::List(vs) = parse_field(t, kind)->Ok_0 {
        let i = choose|i: int| 0 <= i < vs.len() && vs[i] == x;
    }
}

proof fn lemma_no_blanks_concat(a: Seq<char>, b: Seq<char>)
    requires
        no_blanks(a),
        no_blanks(b),
    ensures
        no_blanks(a + b),
{
    assert forall|i: int| 0 <= i < (a + b).len() implies !is_blank(#[trigger] (a + b)[i]) by {
        if i < a.len() {
            assert((a + b)[i] == a[i]);
        } else {
            assert((a + b)[i] == b[i - a.len()]);
        }
    }
}

proof fn lemma_decimal_no_blanks(n: nat)
    ensures
        decimal(n).len() >= 1,
        no_blanks(decimal(n)),
{
    lemma_decimal_numeral(n);
    let d = decimal(n);
    assert forall|i: int| 0 <= i < d.len() implies !is_blank(#[trigger] d[i]) by {
        assert(is_digit(d[i]));
    }
}

/// The canonical text of a valid field value is one non-empty word.
proof fn lemma_canonical_word(p: Pattern, kind: FieldKind)
    requires
        p.wf(kind.lo(), kind.hi()),
    ensures
        canonical(p).len() >= 1,
        no_blanks(canonical(p)),
{
    let t = canonical(p);
    assert(no_blanks(seq!['/']));
    assert(no_blanks(seq!['-']));
    assert(no_blanks(seq!['*']));
    assert(no_blanks(seq!['*', '/']));
    match p {
        Pattern::Wildcard => {},
        Pattern::Single(v) => {
            lemma_decimal_no_blanks(v as nat);
        },
        Pattern::List(vs) => {
            assert forall|i: int| 0 <= i < vs.len() implies vs[i] >= 0 by {}
            lemma_join_split(vs);
            lemma_decimal_no_blanks(vs[0] as nat);
            assert forall|i: int| 0 <= i < t.len() implies !is_blank(#[trigger] t[i]) by {
                assert(is_digit(t[i]) || t[i] == ',');
            }
        },
        Pattern::Range(a, b, step) => {
            lemma_decimal_no_blanks(a as nat);
            lemma_decimal_no_blanks(b as nat);
            let x = decimal(a as nat) + seq!['-'];
            lemma_no_blanks_concat(decimal(a as nat), seq!['-']);
            lemma_no_blanks_concat(x, decimal(b as nat));
            if let Some(st) = step {
                lemma_decimal_no_blanks(st as nat);
                lemma_no_blanks_concat(x + decimal(b as nat), seq!['/']);
                lemma_no_blanks_concat(x + decimal(b as nat) + seq!['/'], decimal(st as nat));
            }
        },
        Pattern::Step(start, st) => {
            lemma_decimal_no_blanks(st as nat);
            if let Some(a) = start {
                lemma_decimal_no_blanks(a as nat);
                lemma_no_blanks_concat(decimal(a as nat), seq!['/']);
                lemma_no_blanks_concat(decimal(a as nat) + seq!['/'], decimal(st as nat));
            } else {
                lemma_no_blanks_concat(seq!['*', '/'], decimal(st as nat));
            }
        },
    }
}

/// Round trip of a whole schedule: its canonical text parses back to the
/// same schedule.
pub proof fn lemma_schedule_round_trip(t: Seq<char>)
    requires
        parse_schedule(t) is Ok,
    ensures
        parse_schedule(canonical_schedule(parse_schedule(t)->Ok_0)) == parse_schedule(t),
{
    let s = parse_schedule(t)->Ok_0;
    let w = words(t);
    lemma_canonical_round_trip(w[0], FieldKind::Minute);
    lemma_canonical_round_trip(w[1], FieldKind::Hour);
    lemma_canonical_round_trip(w[2], FieldKind::DayOfMonth);
    lemma_canonical_round_trip(w[3], FieldKind::Month);
    lemma_canonical_round_trip(w[4], FieldKind::DayOfWeek);
    lemma_parsed_wf(w[0], FieldKind::Minute);
    lemma_parsed_wf(w[1], FieldKind::Hour);
    lemma_parsed_wf(w[2], FieldKind::DayOfMonth);
    lemma_parsed_wf(w[3], FieldKind::Month);
    lemma_parsed_wf(w[4], FieldKind::DayOfWeek);
    let c0 = canonical(s.minute);
    let c1 = canonical(s.hour);
    let c2 = canonical(s.day_of_month);
    let c3 = canonical(s.month);
    let c4 = canonical(s.day_of_week);
    lemma_canonical_word(s.minute, FieldKind::Minute);
    lemma_canonical_word(s.hour, FieldKind::Hour);
    lemma_canonical_word(s.day_of_month, FieldKind::DayOfMonth);
    lemma_canonical_word(s.month, FieldKind::Month);
    lemma_canonical_word(s.day_of_week, FieldKind::DayOfWeek);
    let sp = seq![' '];
    lemma_words_single(c0);
    lemma_words_append(c0, c1);
    lemma_words_append(c0 + sp + c1, c2);
    lemma_words_append(c0 + sp + c1 + sp + c2, c3);
    lemma_words_append(c0 + sp + c1 + sp + c2 + sp + c3, c4);
    assert(words(canonical_schedule(s)) =~= seq![c0, c1, c2, c3, c4]);
}

/// Monotonicity: the instant found lies after the start of the minute that
/// holds `from`.
pub proof fn lemma_next_after_start(s: ScheduleView, from: DateTime, t: DateTime)
    requires
        from.wf(),
        is_next_occurrence(s, from, t),
    ensures
        t.second == 0,
        t.key() > from.key(),
{
}

pub open spec fn all_wildcards(s: ScheduleView) -> bool {
    &&& s.minute is Wildcard
    &&& s.hour is Wildcard
    &&& s.day_of_month is Wildcard
    &&& s.month is Wildcard
    &&& s.day_of_week is Wildcard
}

proof fn lemma_wildcards_match(s: ScheduleView, u: DateTime)
    requires
        all_wildcards(s),
        u.wf(),
    ensures
        s.matches(u),
{
    vstd::arithmetic::div_mod::lemma_mod_bound(
        crate::calendar::julian_day(u.year as int, u.month as int, u.day as int),
        7,
    );
}

/// A schedule of wildcards fires at the next whole minute after `from`: the
/// first valid minute after the one that holds `from`.
pub proof fn lemma_wildcard_next_minute(s: ScheduleView, from: DateTime, t: DateTime)
    requires
        all_wildcards(s),
        from.wf(),
        is_next_occurrence(s, from, t),
    ensures
        t.second == 0,
        t.key() > from.key(),
        forall|u: DateTime| u.wf() && from.key() < u.key() ==> t.key() <= #[trigger] u.key(),
{
    assert forall|u: DateTime| u.wf() && from.key() < u.key() implies t.key() <= #[trigger] u.key() by {
        lemma_wildcards_match(s, u);
    }
}

/// A schedule of wildcards finds an instant whenever a supported minute after
/// the one that holds `from` exists.
pub proof fn lemma_wildcard_always_fires(s: ScheduleView, from: DateTime, u: DateTime)
    requires
        all_wildcards(s),
        u.wf(),
        from.key() < u.key(),
    ensures
        !never_fires_from(s, from),
{
    lemma_wildcards_match(s, u);
}

/// The schedule `* * 3 * 1`: the third of the month, or a Monday.
pub open spec fn third_or_monday() -> ScheduleView {
    ScheduleView {
        minute: Pattern::Wildcard,
        hour: Pattern::Wildcard,
        day_of_month: Pattern::Single(3),
        month: Pattern::Wildcard,
        day_of_week: Pattern::Single(1),
    }
}

/// The text `* * 3 * 1` denotes `third_or_monday()`.
pub proof fn lemma_third_or_monday_text()
    ensures
        parse_schedule(seq!['*', ' ', '*', ' ', '3', ' ', '*', ' ', '1']) == Ok::<
            ScheduleView,
            crate::parser::ParseErrorView,
        >(third_or_monday()),
{
    let t = seq!['*', ' ', '*', ' ', '3', ' ', '*', ' ', '1'];
    let star = seq!['*'];
    let three = seq!['3'];
    let one = seq!['1'];
    let sp = seq![' '];
    lemma_words_single(star);
    lemma_words_append(star, star);
    lemma_words_append(star + sp + star, three);
    lemma_words_append(star + sp + star + sp + three, star);
    lemma_words_append(star + sp + star + sp + three + sp + star, one);
    assert(t =~= star + sp + star + sp + three + sp + star + sp + one);
    assert(words(t) =~= seq![star, star, three, star, one]);
    assert(three.drop_last() =~= Seq::<char>::empty());
    assert(one.drop_last() =~= Seq::<char>::empty());
    assert(numeral(Seq::<char>::empty()) == 0);
    assert(three.last() == '3');
    assert('3' as u32 == 51);
    assert(numeral(three) == 3);
    assert(numeral(one) == 1);
    assert(all_digits(three));
    assert(all_digits(one));
}

/// When both day fields are restricted either one suffices: `* * 3 * 1`
/// fires at the first minute that falls on the third of a month or on a
/// Monday, whichever comes first, and at every such minute.
pub proof fn lemma_day_or_weekday(from: DateTime, t: DateTime)
    requires
        from.wf(),
        is_next_occurrence(third_or_monday(), from, t),
    ensures
        t.day == 3 || t.weekday() == 1,
        forall|u: DateTime|
            u.wf() && start_key(from) <= #[trigger] u.key() < t.key() ==> u.day != 3 && u.weekday() != 1,
        forall|u: DateTime| u.wf() ==> (third_or_monday().matches(u) <==> (u.day == 3 || #[trigger] u.weekday() == 1)),
{
    assert forall|u: DateTime| u.wf() implies (third_or_monday().matches(u) <==> (u.day == 3 || #[trigger] u.weekday() == 1)) by {}
    assert forall|u: DateTime|
        u.wf() && start_key(from) <= #[trigger] u.key() < t.key() implies u.day != 3 && u.weekday() != 1 by {
        assert(!third_or_monday().matches(u));
    }
}

/// `* * 3 * 1` finds an instant whenever, after the minute that holds
/// `from`, some supported minute falls on the third of a month or on a Monday.
pub proof fn lemma_day_or_weekday_found(from: DateTime, u: DateTime)
    requires
        u.wf(),
        from.key() < u.key(),
        u.day == 3 || u.weekday() == 1,
    ensures
        !never_fires_from(third_or_monday(), from),
{
    assert(third_or_monday().matches(u));
}

} // verus!
