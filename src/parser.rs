//! The field grammar: element resolution and the five shapes of a field.
use crate::cron::{ints, option_int, Pattern, Value};
use crate::text::{
    all_digits, all_letters, chars_of, lemma_numeral_nonneg, lemma_split_nonempty, numeral,
    parse_numeral, split, split_chars,
};
use vstd::prelude::*;

verus! {

/// The five positions of a schedule, in order.
#[derive(Clone, Copy, Debug, PartialEq, Eq, Structural)]
pub enum FieldKind {
    Minute,
    Hour,
    DayOfMonth,
    Month,
    DayOfWeek,
}

impl FieldKind {
    /// Smallest value of the field's domain.
    pub open spec fn lo(self) -> int {
        match self {
            FieldKind::DayOfMonth | FieldKind::Month => 1,
            _ => 0,
        }
    }

    /// Largest value of the field's domain; for the day of week, 7 is Sunday
    /// as 0 is.
    pub open spec fn hi(self) -> int {
        match self {
            FieldKind::Minute => 59,
            FieldKind::Hour => 23,
            FieldKind::DayOfMonth => 31,
            FieldKind::Month => 12,
            FieldKind::DayOfWeek => 7,
        }
    }

    /// Whether the field also accepts three-letter names.
    pub open spec fn has_names(self) -> bool {
        self is Month || self is DayOfWeek
    }

    pub open spec fn name_count(self) -> int {
        match self {
            FieldKind::Month => 12,
            FieldKind::DayOfWeek => 7,
            _ => 0,
        }
    }

    pub fn min(&self) -> (r: i32)
        ensures
            r as int == self.lo(),
    {
        match self {
            FieldKind::DayOfMonth | FieldKind::Month => 1,
            _ => 0,
        }
    }

    pub fn max(&self) -> (r: i32)
        ensures
            r as int == self.hi(),
    {
        match self {
            FieldKind::Minute => 59,
            FieldKind::Hour => 23,
            FieldKind::DayOfMonth => 31,
            FieldKind::Month => 12,
            FieldKind::DayOfWeek => 7,
        }
    }
}

/// The kinds of rejection.
#[derive(Clone, Copy, Debug, PartialEq, Eq, Structural)]
pub enum ErrorKind {
    /// The schedule does not consist of exactly five fields.
    WrongFieldCount,
    /// A field matches none of the five shapes.
    InvalidSyntax,
    /// A number lies outside the field's domain, or a range runs backwards.
    OutOfRange,
    /// A month or weekday name is not in the name table.
    UnknownName,
}

/// A rejected schedule or field: what went wrong, in which field (none for
/// a wrong number of fields), and the offending text.
#[derive(Clone, Debug, PartialEq, Eq)]
pub struct ParseError {
    pub kind: ErrorKind,
    pub field: Option<FieldKind>,
    pub text: String,
}

pub struct ParseErrorView {
    pub kind: ErrorKind,
    pub field: Option<FieldKind>,
    pub text: Seq<char>,
}

impl View for ParseError {
    type V = ParseErrorView;

    open spec fn view(&self) -> ParseErrorView {
        ParseErrorView { kind: self.kind, field: self.field, text: self.text@ }
    }
}

/// The outcome of parsing `t` as a field of kind `kind`, errors naming the
/// field and its text.
pub open spec fn parse_field_text(t: Seq<char>, kind: FieldKind) -> Result<Pattern, ParseErrorView> {
    match parse_field(t, kind) {
        Ok(p) => Ok(p),
        Err(k) => Err(ParseErrorView { kind: k, field: Some(kind), text: t }),
    }
}

/// Three-letter month names, January being 1.
pub open spec fn month_abbrev(i: int) -> Seq<char> {
    if i == 1 {
        seq!['J', 'A', 'N']
    } else if i == 2 {
        seq!['F', 'E', 'B']
    } else if i == 3 {
        seq!['M', 'A', 'R']
    } else if i == 4 {
        seq!['A', 'P', 'R']
    } else if i == 5 {
        seq!['M', 'A', 'Y']
    } else if i == 6 {
        seq!['J', 'U', 'N']
    } else if i == 7 {
        seq!['J', 'U', 'L']
    } else if i == 8 {
        seq!['A', 'U', 'G']
    } else if i == 9 {
        seq!['S', 'E', 'P']
    } else if i == 10 {
        seq!['O', 'C', 'T']
    } else if i == 11 {
        seq!['N', 'O', 'V']
    } else {
        seq!['D', 'E', 'C']
    }
}

/// Three-letter weekday names, Monday being 1 and Sunday 7.
pub open spec fn weekday_abbrev(i: int) -> Seq<char> {
    if i == 1 {
        seq!['M', 'O', 'N']
    } else if i == 2 {
        seq!['T', 'U', 'E']
    } else if i == 3 {
        seq!['W', 'E', 'D']
    } else if i == 4 {
        seq!['T', 'H', 'U']
    } else if i == 5 {
        seq!['F', 'R', 'I']
    } else if i == 6 {
        seq!['S', 'A', 'T']
    } else {
        seq!['S', 'U', 'N']
    }
}

pub open spec fn abbrev(kind: FieldKind, i: int) -> Seq<char> {
    if kind is Month {
        month_abbrev(i)
    } else {
        weekday_abbrev(i)
    }
}

/// `e` spells the upper-case `name`, in either case.
pub open spec fn name_matches(e: Seq<char>, name: Seq<char>) -> bool {
    &&& e.len() == name.len()
    &&& forall|i: int| 0 <= i < e.len() ==> #[trigger] e[i] == name[i] || e[i] as u32 == name[i] as u32 + 32
}

/// The number of the first name, from the `i`-th on, that `e` spells.
pub open spec fn lookup_name(e: Seq<char>, kind: FieldKind, i: int) -> Option<int>
    decreases 13 - i,
{
    if i < 1 || i > kind.name_count() {
        None
    } else if name_matches(e, abbrev(kind, i)) {
        Some(i)
    } else {
        lookup_name(e, kind, i + 1)
    }
}

/// The integer that an element of a field stands for: a decimal numeral
/// inside the domain, or, for months and weekdays, a name.
pub open spec fn resolve(e: Seq<char>, kind: FieldKind) -> Result<int, ErrorKind> {
    if e.len() > 0 && all_digits(e) {
        if kind.lo() <= numeral(e) <= kind.hi() {
            Ok(numeral(e))
        } else {
            Err(ErrorKind::OutOfRange)
        }
    } else if kind.has_names() && e.len() > 0 && all_letters(e) {
        match lookup_name(e, kind, 1) {
            Some(i) => Ok(i),
            None => Err(ErrorKind::UnknownName),
        }
    } else {
        Err(ErrorKind::InvalidSyntax)
    }
}

/// The step of a step or range form: a decimal numeral from 1 to the
/// domain's maximum.
pub open spec fn resolve_step(e: Seq<char>, kind: FieldKind) -> Result<int, ErrorKind> {
    if e.len() > 0 && all_digits(e) {
        if 1 <= numeral(e) <= kind.hi() {
            Ok(numeral(e))
        } else {
            Err(ErrorKind::OutOfRange)
        }
    } else {
        Err(ErrorKind::InvalidSyntax)
    }
}

fn name_chars(kind: FieldKind, i: i32) -> (r: [char; 3])
    requires
        kind.has_names(),
        1 <= i <= kind.name_count(),
    ensures
        r@ == abbrev(kind, i as int),
{
    match kind {
        FieldKind::Month => month_chars(i),
        _ => weekday_chars(i),
    }
}

fn month_chars(i: i32) -> (r: [char; 3])
    ensures
        r@ == month_abbrev(i as int),
{
    let r =
    if i == 1 {
        ['J', 'A', 'N']
    } else if i == 2 {
        ['F', 'E', 'B']
    } else if i == 3 {
        ['M', 'A', 'R']
    } else if i == 4 {
        ['A', 'P', 'R']
    } else if i == 5 {
        ['M', 'A', 'Y']
    } else if i == 6 {
        ['J', 'U', 'N']
    } else if i == 7 {
        ['J', 'U', 'L']
    } else if i == 8 {
        ['A', 'U', 'G']
    } else if i == 9 {
        ['S', 'E', 'P']
    } else if i == 10 {
        ['O', 'C', 'T']
    } else if i == 11 {
        ['N', 'O', 'V']
    } else {
        ['D', 'E', 'C']
    };
    assert(r@ =~= month_abbrev(i as int));
    r
}

fn weekday_chars(i: i32) -> (r: [char; 3])
    ensures
        r@ == weekday_abbrev(i as int),
{
    let r =
    if i == 1 {
        ['M', 'O', 'N']
    } else if i == 2 {
        ['T', 'U', 'E']
    } else if i == 3 {
        ['W', 'E', 'D']
    } else if i == 4 {
        ['T', 'H', 'U']
    } else if i == 5 {
        ['F', 'R', 'I']
    } else if i == 6 {
        ['S', 'A', 'T']
    } else {
        ['S', 'U', 'N']
    };
    assert(r@ =~= weekday_abbrev(i as int));
    r
}

/// The number of the name that `e` spells, in either case.
fn find_name(e: &Vec<char>, kind: FieldKind) -> (r: Option<i32>)
    requires
        kind.has_names(),
    ensures
        option_int(r) == lookup_name(e@, kind, 1),
{
    let count: i32 = if kind == FieldKind::Month { 12 } else { 7 };
    let mut i: i32 = 1;
    while i <= count
        invariant
            1 <= i <= count + 1,
            count == kind.name_count(),
            kind.has_names(),
            lookup_name(e@, kind, 1) == lookup_name(e@, kind, i as int),
        decreases count + 1 - i,
    {
        let name = name_chars(kind, i);
        if e.len() == 3 {
            let mut same = true;
            let mut j: usize = 0;
            while j < 3
                invariant
                    0 <= j <= 3,
                    e.len() == 3,
                    same <==> forall|k: int| 0 <= k < j ==> #[trigger] e@[k] == name@[k] || e@[k] as u32 == name@[k] as u32 + 32,
                decreases 3 - j,
            {
                let c = e[j];
                let u = name[j];
                if !(c == u || ((c as u32) >= 32 && (c as u32) - 32 == (u as u32))) {
                    same = false;
                }
                j = j + 1;
            }
            if same {
                return Some(i);
            }
        }
        i = i + 1;
    }
    None
}

pub open spec fn result_agrees(r: Result<i32, ErrorKind>, s: Result<int, ErrorKind>) -> bool {
    match r {
        Ok(v) => s == Ok::<int, ErrorKind>(v as int),
        Err(k) => s == Err::<int, ErrorKind>(k),
    }
}

/// Resolves one element of a field of kind `kind`.
pub fn resolve_element(e: &Vec<char>, kind: FieldKind) -> (r: Result<i32, ErrorKind>)
    ensures
        result_agrees(r, resolve(e@, kind)),
{
    match parse_numeral(e) {
        Some(n) => {
            proof {
                lemma_numeral_nonneg(e@);
            }
            if kind.min() <= n as i32 && n as i32 <= kind.max() {
                Ok(n as i32)
            } else {
                Err(ErrorKind::OutOfRange)
            }
        },
        None => {
            if (kind == FieldKind::Month || kind == FieldKind::DayOfWeek) && e.len() > 0 && letters_only(e) {
                match find_name(e, kind) {
                    Some(i) => Ok(i),
                    None => Err(ErrorKind::UnknownName),
                }
            } else {
                Err(ErrorKind::InvalidSyntax)
            }
        },
    }
}

fn letters_only(e: &Vec<char>) -> (r: bool)
    ensures
        r == all_letters(e@),
{
    let mut i: usize = 0;
    while i < e.len()
        invariant
            0 <= i <= e.len(),
            all_letters(e@.take(i as int)),
        decreases e.len() - i,
    {
        let code = e[i] as u32;
        if !((65 <= code && code <= 90) || (97 <= code && code <= 122)) {
            return false;
        }
        i = i + 1;
        assert(all_letters(e@.take(i as int)));
    }
    assert(e@.take(e.len() as int) =~= e@);
    true
}

/// Resolves the step of a step or range form.
fn resolve_step_exec(e: &Vec<char>, kind: FieldKind) -> (r: Result<i32, ErrorKind>)
    ensures
        result_agrees(r, resolve_step(e@, kind)),
{
    match parse_numeral(e) {
        Some(n) => {
            proof {
                lemma_numeral_nonneg(e@);
            }
            if 1 <= n as i32 && n as i32 <= kind.max() {
                Ok(n as i32)
            } else {
                Err(ErrorKind::OutOfRange)
            }
        },
        None => Err(ErrorKind::InvalidSyntax),
    }
}

/// The `start-stop` form, optionally followed by `/step`.
pub open spec fn parse_range(t: Seq<char>, kind: FieldKind) -> Result<Pattern, ErrorKind> {
    let by_slash = split(t, '/');
    let bounds = split(by_slash[0], '-');
    if by_slash.len() > 2 || bounds.len() != 2 {
        Err(ErrorKind::InvalidSyntax)
    } else {
        match resolve(bounds[0], kind) {
            Err(e) => Err(e),
            Ok(a) => match resolve(bounds[1], kind) {
                Err(e) => Err(e),
                Ok(b) => if by_slash.len() == 2 {
                    match resolve_step(by_slash[1], kind) {
                        Err(e) => Err(e),
                        Ok(s) => if a <= b {
                            Ok(Pattern::Range(a, b, Some(s)))
                        } else {
                            Err(ErrorKind::OutOfRange)
                        },
                    }
                } else if a <= b {
                    Ok(Pattern::Range(a, b, None))
                } else {
                    Err(ErrorKind::OutOfRange)
                },
            },
        }
    }
}

/// The `start/step` and `*/step` forms.
pub open spec fn parse_step(t: Seq<char>, kind: FieldKind) -> Result<Pattern, ErrorKind> {
    let parts = split(t, '/');
    if parts.len() != 2 {
        Err(ErrorKind::InvalidSyntax)
    } else {
        let start: Result<Option<int>, ErrorKind> = if parts[0] == seq!['*'] {
            Ok(None)
        } else {
            match resolve(parts[0], kind) {
                Ok(a) => Ok(Some(a)),
                Err(e) => Err(e),
            }
        };
        match start {
            Err(e) => Err(e),
            Ok(start) => match resolve_step(parts[1], kind) {
                Err(e) => Err(e),
                Ok(s) => Ok(Pattern::Step(start, s)),
            },
        }
    }
}

/// Resolves every element, in order; the first failure is the result.
pub open spec fn resolve_all(parts: Seq<Seq<char>>, kind: FieldKind) -> Result<Seq<int>, ErrorKind>
    decreases parts.len(),
{
    if parts.len() == 0 {
        Ok(Seq::empty())
    } else {
        match resolve(parts[0], kind) {
            Err(e) => Err(e),
            Ok(v) => match resolve_all(parts.drop_first(), kind) {
                Err(e) => Err(e),
                Ok(vs) => Ok(seq![v] + vs),
            },
        }
    }
}

/// The field value that `t` denotes in a field of kind `kind`. The shape is
/// chosen by the first of these that holds: `t` holds `-` (a range), `/` (a
/// step), `,` (a list), is `*` (a wildcard); else it is a single element.
pub open spec fn parse_field(t: Seq<char>, kind: FieldKind) -> Result<Pattern, ErrorKind> {
    if t.contains('-') {
        parse_range(t, kind)
    } else if t.contains('/') {
        parse_step(t, kind)
    } else if t.contains(',') {
        match resolve_all(split(t, ','), kind) {
            Ok(vs) => Ok(Pattern::List(vs)),
            Err(e) => Err(e),
        }
    } else if t == seq!['*'] {
        Ok(Pattern::Wildcard)
    } else {
        match resolve(t, kind) {
            Ok(v) => Ok(Pattern::Single(v)),
            Err(e) => Err(e),
        }
    }
}

pub open spec fn value_agrees(r: Result<Value, ErrorKind>, s: Result<Pattern, ErrorKind>) -> bool {
    match r {
        Ok(v) => s == Ok::<Pattern, ErrorKind>(v@),
        Err(k) => s == Err::<Pattern, ErrorKind>(k),
    }
}

fn has_char(t: &Vec<char>, c: char) -> (r: bool)
    ensures
        r == t@.contains(c),
{
    let mut i: usize = 0;
    while i < t.len()
        invariant
            0 <= i <= t.len(),
            forall|j: int| 0 <= j < i ==> t@[j] != c,
        decreases t.len() - i,
    {
        if t[i] == c {
            assert(t@[i as int] == c);
            return true;
        }
        i = i + 1;
    }
    false
}

fn is_star(t: &Vec<char>) -> (r: bool)
    ensures
        r == (t@ == seq!['*']),
{
    if t.len() == 1 && t[0] == '*' {
        assert(t@ =~= seq!['*']);
        true
    } else {
        false
    }
}

fn parse_range_exec(t: &Vec<char>, kind: FieldKind) -> (r: Result<Value, ErrorKind>)
    ensures
        value_agrees(r, parse_range(t@, kind)),
{
    let by_slash = split_chars(t, '/');
    proof {
        lemma_split_nonempty(t@, '/');
    }
    let bounds = split_chars(&by_slash[0], '-');
    if by_slash.len() > 2 || bounds.len() != 2 {
        return Err(ErrorKind::InvalidSyntax);
    }
    let a = match resolve_element(&bounds[0], kind) {
        Ok(a) => a,
        Err(e) => {
            return Err(e);
        },
    };
    let b = match resolve_element(&bounds[1], kind) {
        Ok(b) => b,
        Err(e) => {
            return Err(e);
        },
    };
    if by_slash.len() == 2 {
        let s = match resolve_step_exec(&by_slash[1], kind) {
            Ok(s) => s,
            Err(e) => {
                return Err(e);
            },
        };
        if a <= b {
            Ok(Value::Range(a, b, Some(s)))
        } else {
            Err(ErrorKind::OutOfRange)
        }
    } else if a <= b {
        Ok(Value::Range(a, b, None))
    } else {
        Err(ErrorKind::OutOfRange)
    }
}

fn parse_step_exec(t: &Vec<char>, kind: FieldKind) -> (r: Result<Value, ErrorKind>)
    ensures
        value_agrees(r, parse_step(t@, kind)),
{
    let parts = split_chars(t, '/');
    if parts.len() != 2 {
        return Err(ErrorKind::InvalidSyntax);
    }
    let start = if is_star(&parts[0]) {
        None
    } else {
        match resolve_element(&parts[0], kind) {
            Ok(a) => Some(a),
            Err(e) => {
                return Err(e);
            },
        }
    };
    match resolve_step_exec(&parts[1], kind) {
        Ok(s) => Ok(Value::Step(start, s)),
        Err(e) => Err(e),
    }
}

fn parse_list_exec(t: &Vec<char>, kind: FieldKind) -> (r: Result<Vec<i32>, ErrorKind>)
    ensures
        match r {
            Ok(vs) => resolve_all(split(t@, ','), kind) == Ok::<Seq<int>, ErrorKind>(ints(vs@)),
            Err(e) => resolve_all(split(t@, ','), kind) == Err::<Seq<int>, ErrorKind>(e),
        },
{
    let parts = split_chars(t, ',');
    let ghost sp = split(t@, ',');
    let mut vals: Vec<i32> = Vec::new();
    let mut i: usize = 0;
    assert(sp.skip(0) =~= sp);
    assert forall|ws: Seq<int>| ints(vals@) + ws =~= ws by {}
    while i < parts.len()
        invariant
            0 <= i <= parts.len(),
            sp == split(t@, ','),
            parts.len() == sp.len(),
            forall|j: int| 0 <= j < parts.len() ==> #[trigger] parts[j]@ == sp[j],
            resolve_all(sp, kind) == match resolve_all(sp.skip(i as int), kind) {
                Ok(ws) => Ok(ints(vals@) + ws),
                Err(e) => Err(e),
            },
        decreases parts.len() - i,
    {
        let ghost rest = sp.skip(i as int);
        assert(rest[0] == sp[i as int]);
        assert(rest.drop_first() =~= sp.skip(i + 1));
        match resolve_element(&parts[i], kind) {
            Ok(v) => {
                let ghost before = vals@;
                vals.push(v);
                proof {
                    assert(ints(vals@) =~= ints(before) + seq![v as int]);
                    match resolve_all(sp.skip(i + 1), kind) {
                        Ok(ws) => {
                            assert(ints(before) + (seq![v as int] + ws) =~= ints(vals@) + ws);
                        },
                        Err(_) => {},
                    }
                }
            },
            Err(e) => {
                assert(resolve_all(rest, kind) == Err::<Seq<int>, ErrorKind>(e));
                return Err(e);
            },
        }
        i = i + 1;
    }
    assert(sp.skip(i as int) =~= Seq::<Seq<char>>::empty());
    assert(ints(vals@) + Seq::<int>::empty() =~= ints(vals@));
    Ok(vals)
}

/// Parses the text of one field of kind `kind`.
pub fn parse_value(t: &Vec<char>, kind: FieldKind) -> (r: Result<Value, ErrorKind>)
    ensures
        value_agrees(r, parse_field(t@, kind)),
{
    if has_char(t, '-') {
        parse_range_exec(t, kind)
    } else if has_char(t, '/') {
        parse_step_exec(t, kind)
    } else if has_char(t, ',') {
        match parse_list_exec(t, kind) {
            Ok(vs) => Ok(Value::List(vs)),
            Err(e) => Err(e),
        }
    } else if is_star(t) {
        Ok(Value::Wildcard)
    } else {
        match resolve_element(t, kind) {
            Ok(v) => Ok(Value::Single(v)),
            Err(e) => Err(e),
        }
    }
}

/// Names stand for numbers from 1 to the size of the table.
proof fn lemma_lookup_name_bounds(e: Seq<char>, kind: FieldKind, i: int)
    ensures
        match lookup_name(e, kind, i) {
            Some(j) => i <= j <= kind.name_count() && 1 <= j,
            None => true,
        },
    decreases 13 - i,
{
    if !(i < 1 || i > kind.name_count()) && !name_matches(e, abbrev(kind, i)) {
        lemma_lookup_name_bounds(e, kind, i + 1);
    }
}

/// A resolved element lies in the field's domain.
pub proof fn lemma_resolve_in_domain(e: Seq<char>, kind: FieldKind)
    ensures
        resolve(e, kind) matches Ok(v) ==> kind.lo() <= v <= kind.hi(),
{
    lemma_lookup_name_bounds(e, kind, 1);
}

proof fn lemma_resolve_all_in_domain(parts: Seq<Seq<char>>, kind: FieldKind)
    ensures
        resolve_all(parts, kind) matches Ok(vs) ==> vs.len() == parts.len() && forall|i: int|
            0 <= i < vs.len() ==> kind.lo() <= #[trigger] vs[i] <= kind.hi(),
    decreases parts.len(),
{
    if parts.len() > 0 {
        lemma_resolve_in_domain(parts[0], kind);
        lemma_resolve_all_in_domain(parts.drop_first(), kind);
        if let Ok(vs) = resolve_all(parts, kind) {
            let v = resolve(parts[0], kind)->Ok_0;
            let ws = resolve_all(parts.drop_first(), kind)->Ok_0;
            assert(vs == seq![v] + ws);
            assert forall|i: int| 0 <= i < vs.len() implies kind.lo() <= #[trigger] vs[i] <= kind.hi() by {
                if i > 0 {
                    assert(vs[i] == ws[i - 1]);
                }
            }
        }
    }
}

/// A parsed field value keeps the shape invariants within its domain.
pub proof fn lemma_parsed_wf(t: Seq<char>, kind: FieldKind)
    ensures
        parse_field(t, kind) matches Ok(p) ==> p.wf(kind.lo(), kind.hi()),
{
    let by_slash = split(t, '/');
    lemma_split_nonempty(t, '/');
    lemma_split_nonempty(t, ',');
    lemma_resolve_in_domain(t, kind);
    lemma_resolve_in_domain(split(by_slash[0], '-')[0], kind);
    lemma_resolve_in_domain(split(by_slash[0], '-')[1], kind);
    lemma_resolve_in_domain(by_slash[0], kind);
    lemma_resolve_all_in_domain(split(t, ','), kind);
}

/// Resolves one element of a field of kind `kind`, for callers holding text.
pub fn resolve_text(elem: &str, kind: FieldKind) -> (r: Result<i32, ParseError>)
    ensures
        match r {
            Ok(v) => resolve(elem@, kind) == Ok::<int, ErrorKind>(v as int),
            Err(e) => {
                &&& resolve(elem@, kind) == Err::<int, ErrorKind>(e.kind)
                &&& e.field == Some(kind)
                &&& e@.text == elem@
            },
        },
{
    let chars = chars_of(elem);
    match resolve_element(&chars, kind) {
        Ok(v) => Ok(v),
        Err(k) => Err(ParseError { kind: k, field: Some(kind), text: elem.to_owned() }),
    }
}

/// Resolves a minute: a numeral from 0 to 59.
pub fn minute(elem: &str) -> (r: Result<i32, ParseError>)
    ensures
        match r {
            Ok(v) => resolve(elem@, FieldKind::Minute) == Ok::<int, ErrorKind>(v as int),
            Err(e) => {
                &&& resolve(elem@, FieldKind::Minute) == Err::<int, ErrorKind>(e.kind)
                &&& e.field == Some(FieldKind::Minute)
                &&& e@.text == elem@
            },
        },
{
    resolve_text(elem, FieldKind::Minute)
}

/// Resolves an hour: a numeral from 0 to 23.
pub fn hour(elem: &str) -> (r: Result<i32, ParseError>)
    ensures
        match r {
            Ok(v) => resolve(elem@, FieldKind::Hour) == Ok::<int, ErrorKind>(v as int),
            Err(e) => {
                &&& resolve(elem@, FieldKind::Hour) == Err::<int, ErrorKind>(e.kind)
                &&& e.field == Some(FieldKind::Hour)
                &&& e@.text == elem@
            },
        },
{
    resolve_text(elem, FieldKind::Hour)
}

/// Resolves a day of the month: a numeral from 1 to 31.
pub fn day_of_month(elem: &str) -> (r: Result<i32, ParseError>)
    ensures
        match r {
            Ok(v) => resolve(elem@, FieldKind::DayOfMonth) == Ok::<int, ErrorKind>(v as int),
            Err(e) => {
                &&& resolve(elem@, FieldKind::DayOfMonth) == Err::<int, ErrorKind>(e.kind)
                &&& e.field == Some(FieldKind::DayOfMonth)
                &&& e@.text == elem@
            },
        },
{
    resolve_text(elem, FieldKind::DayOfMonth)
}

/// Resolves a month: a numeral from 1 to 12 or a name from JAN to DEC.
pub fn month(elem: &str) -> (r: Result<i32, ParseError>)
    ensures
        match r {
            Ok(v) => resolve(elem@, FieldKind::Month) == Ok::<int, ErrorKind>(v as int),
            Err(e) => {
                &&& resolve(elem@, FieldKind::Month) == Err::<int, ErrorKind>(e.kind)
                &&& e.field == Some(FieldKind::Month)
                &&& e@.text == elem@
            },
        },
{
    resolve_text(elem, FieldKind::Month)
}

/// Resolves a day of the week: a numeral from 0 to 7 or a name from MON
/// (1) to SUN (7).
pub fn day_of_week(elem: &str) -> (r: Result<i32, ParseError>)
    ensures
        match r {
            Ok(v) => resolve(elem@, FieldKind::DayOfWeek) == Ok::<int, ErrorKind>(v as int),
            Err(e) => {
                &&& resolve(elem@, FieldKind::DayOfWeek) == Err::<int, ErrorKind>(e.kind)
                &&& e.field == Some(FieldKind::DayOfWeek)
                &&& e@.text == elem@
            },
        },
{
    resolve_text(elem, FieldKind::DayOfWeek)
}

} // verus!
