//! Character-level text: splitting, numerals and decimal rendering.
use vstd::prelude::*;

verus! {

/// Splits `s` at every `sep`; empty pieces are kept, so there is always at
/// least one piece.
pub open spec fn split(s: Seq<char>, sep: char) -> Seq<Seq<char>>
    decreases s.len(),
{
    if s.len() == 0 {
        seq![Seq::empty()]
    } else {
        let init = split(s.drop_last(), sep);
        if s.last() == sep {
            init.push(Seq::empty())
        } else {
            init.update(init.len() - 1, init.last().push(s.last()))
        }
    }
}

pub proof fn lemma_split_nonempty(s: Seq<char>, sep: char)
    ensures
        split(s, sep).len() >= 1,
    decreases s.len(),
{
    if s.len() > 0 {
        lemma_split_nonempty(s.drop_last(), sep);
    }
}

pub open spec fn is_blank(c: char) -> bool {
    c == ' ' || c == '\t' || c == '\n' || c == '\r'
}

/// The maximal runs of non-blank characters of `s`, in order.
pub open spec fn words(s: Seq<char>) -> Seq<Seq<char>>
    decreases s.len(),
{
    if s.len() == 0 {
        Seq::empty()
    } else {
        let init = words(s.drop_last());
        if is_blank(s.last()) {
            init
        } else if s.len() >= 2 && !is_blank(s[s.len() - 2]) {
            init.update(init.len() - 1, init.last().push(s.last()))
        } else {
            init.push(seq![s.last()])
        }
    }
}

pub proof fn lemma_words_open(s: Seq<char>)
    requires
        s.len() > 0,
        !is_blank(s.last()),
    ensures
        words(s).len() >= 1,
    decreases s.len(),
{
    if s.len() >= 2 && !is_blank(s[s.len() - 2]) {
        lemma_words_open(s.drop_last());
    }
}

pub open spec fn no_blanks(s: Seq<char>) -> bool {
    forall|i: int| 0 <= i < s.len() ==> !is_blank(#[trigger] s[i])
}

/// A non-empty run without blanks is one word.
pub proof fn lemma_words_single(a: Seq<char>)
    requires
        a.len() >= 1,
        no_blanks(a),
    ensures
        words(a) == seq![a],
    decreases a.len(),
{
    assert(!is_blank(a[a.len() - 1]));
    if a.len() == 1 {
        assert(a.drop_last() =~= Seq::<char>::empty());
        assert(words(a.drop_last()) =~= Seq::<Seq<char>>::empty());
        assert(seq![a.last()] =~= a);
        assert(Seq::<Seq<char>>::empty().push(seq![a.last()]) =~= seq![a]);
    } else {
        let init = a.drop_last();
        assert(no_blanks(init)) by {
            assert forall|i: int| 0 <= i < init.len() implies !is_blank(#[trigger] init[i]) by {
                assert(init[i] == a[i]);
            }
        }
        lemma_words_single(init);
        assert(!is_blank(a[a.len() - 2]));
        assert(init.push(a.last()) =~= a);
        assert(seq![init].update(0, init.push(a.last())) =~= seq![a]);
    }
}

/// A blank followed by a non-empty run without blanks adds that run as a word.
pub proof fn lemma_words_append(x: Seq<char>, y: Seq<char>)
    requires
        y.len() >= 1,
        no_blanks(y),
    ensures
        words(x + seq![' '] + y) == words(x).push(y),
    decreases y.len(),
{
    let t = x + seq![' '] + y;
    assert(!is_blank(y[y.len() - 1]));
    assert(t.last() == y.last());
    if y.len() == 1 {
        assert(t.drop_last() =~= x + seq![' ']);
        assert((x + seq![' ']).drop_last() =~= x);
        assert((x + seq![' ']).last() == ' ');
        assert(words(x + seq![' ']) == words(x));
        assert(t[t.len() - 2] == ' ');
        assert(seq![t.last()] =~= y);
    } else {
        let y0 = y.drop_last();
        assert(no_blanks(y0)) by {
            assert forall|i: int| 0 <= i < y0.len() implies !is_blank(#[trigger] y0[i]) by {
                assert(y0[i] == y[i]);
            }
        }
        lemma_words_append(x, y0);
        assert(t.drop_last() =~= x + seq![' '] + y0);
        assert(t[t.len() - 2] == y[y.len() - 2]);
        assert(!is_blank(y[y.len() - 2]));
        assert(y0.push(y.last()) =~= y);
        assert(words(x).push(y0).update(words(x).len() as int, y0.push(y.last())) =~= words(x).push(y));
    }
}

pub open spec fn is_digit(c: char) -> bool {
    48 <= c as u32 <= 57
}

pub open spec fn all_digits(s: Seq<char>) -> bool {
    forall|i: int| 0 <= i < s.len() ==> is_digit(#[trigger] s[i])
}

pub open spec fn is_letter(c: char) -> bool {
    (65 <= c as u32 <= 90) || (97 <= c as u32 <= 122)
}

pub open spec fn all_letters(s: Seq<char>) -> bool {
    forall|i: int| 0 <= i < s.len() ==> is_letter(#[trigger] s[i])
}

/// The value of a string of decimal digits.
pub open spec fn numeral(s: Seq<char>) -> int
    decreases s.len(),
{
    if s.len() == 0 {
        0
    } else {
        numeral(s.drop_last()) * 10 + (s.last() as u32 - 48)
    }
}

pub open spec fn digit_char(d: int) -> char {
    if d == 0 {
        '0'
    } else if d == 1 {
        '1'
    } else if d == 2 {
        '2'
    } else if d == 3 {
        '3'
    } else if d == 4 {
        '4'
    } else if d == 5 {
        '5'
    } else if d == 6 {
        '6'
    } else if d == 7 {
        '7'
    } else if d == 8 {
        '8'
    } else {
        '9'
    }
}

/// The decimal digits of `n`, without leading zeros.
pub open spec fn decimal(n: nat) -> Seq<char>
    decreases n,
{
    if n < 10 {
        seq![digit_char(n as int)]
    } else {
        decimal(n / 10).push(digit_char((n % 10) as int))
    }
}

/// The characters of `s`.
pub fn chars_of(s: &str) -> (r: Vec<char>)
    ensures
        r@ == s@,
{
    let n = s.unicode_len();
    let mut r: Vec<char> = Vec::new();
    let mut i: usize = 0;
    while i < n
        invariant
            0 <= i <= n,
            n == s@.len(),
            r@ == s@.take(i as int),
        decreases n - i,
    {
        r.push(s.get_char(i));
        i = i + 1;
        assert(r@ =~= s@.take(i as int));
    }
    assert(r@ =~= s@);
    r
}

/// The pieces of `s` between occurrences of `sep`.
pub fn split_chars(s: &Vec<char>, sep: char) -> (r: Vec<Vec<char>>)
    ensures
        r.len() == split(s@, sep).len(),
        forall|j: int| 0 <= j < r.len() ==> #[trigger] r[j]@ == split(s@, sep)[j],
{
    let mut pieces: Vec<Vec<char>> = Vec::new();
    let mut cur: Vec<char> = Vec::new();
    let mut i: usize = 0;
    while i < s.len()
        invariant
            0 <= i <= s.len(),
            pieces.len() + 1 == split(s@.take(i as int), sep).len(),
            forall|j: int| 0 <= j < pieces.len() ==> #[trigger] pieces[j]@ == split(s@.take(i as int), sep)[j],
            cur@ == split(s@.take(i as int), sep).last(),
        decreases s.len() - i,
    {
        let c = s[i];
        let ghost before = s@.take(i as int);
        proof {
            lemma_split_nonempty(before, sep);
            assert(s@.take(i + 1).drop_last() =~= before);
        }
        if c == sep {
            pieces.push(cur);
            cur = Vec::new();
        } else {
            cur.push(c);
        }
        i = i + 1;
    }
    assert(s@.take(s.len() as int) =~= s@);
    pieces.push(cur);
    pieces
}

/// The bounds `(start, end)` in `s` of each of its words.
pub fn word_bounds(s: &Vec<char>) -> (r: Vec<(usize, usize)>)
    ensures
        r.len() == words(s@).len(),
        forall|j: int|
            0 <= j < r.len() ==> {
                &&& (#[trigger] r[j]).0 <= r[j].1 <= s.len()
                &&& s@.subrange(r[j].0 as int, r[j].1 as int) == words(s@)[j]
            },
{
    let mut done: Vec<(usize, usize)> = Vec::new();
    let mut in_word = false;
    let mut open: usize = 0;
    let mut i: usize = 0;
    while i < s.len()
        invariant
            0 <= i <= s.len(),
            open <= i,
            in_word <==> (i > 0 && !is_blank(s@[i - 1])),
            done.len() + (if in_word { 1int } else { 0int }) == words(s@.take(i as int)).len(),
            forall|j: int|
                0 <= j < done.len() ==> {
                    &&& (#[trigger] done[j]).0 <= done[j].1 <= i
                    &&& s@.subrange(done[j].0 as int, done[j].1 as int) == words(s@.take(i as int))[j]
                },
            in_word ==> s@.subrange(open as int, i as int) == words(s@.take(i as int)).last(),
        decreases s.len() - i,
    {
        let c = s[i];
        let blank = c == ' ' || c == '\t' || c == '\n' || c == '\r';
        let ghost before = s@.take(i as int);
        let ghost after = s@.take(i + 1);
        proof {
            assert(after.drop_last() =~= before);
            if in_word {
                lemma_words_open(before);
                assert(before.last() == s@[i - 1]);
            }
        }
        if blank {
            if in_word {
                done.push((open, i));
            }
            in_word = false;
        } else {
            if !in_word {
                open = i;
                in_word = true;
            }
        }
        i = i + 1;
        proof {
            assert(s@.subrange(open as int, i as int) =~= s@.subrange(open as int, i - 1).push(c));
        }
    }
    if in_word {
        done.push((open, i));
    }
    assert(s@.take(s.len() as int) =~= s@);
    done
}

proof fn lemma_digit_char(d: int)
    requires
        0 <= d < 10,
    ensures
        digit_char(d) as u32 == 48 + d,
        is_digit(digit_char(d)),
{
}

/// The decimal text of `n` is a non-empty string of digits whose value is `n`.
pub proof fn lemma_decimal_numeral(n: nat)
    ensures
        decimal(n).len() >= 1,
        all_digits(decimal(n)),
        numeral(decimal(n)) == n,
    decreases n,
{
    if n < 10 {
        lemma_digit_char(n as int);
        assert(decimal(n).drop_last() =~= Seq::<char>::empty());
        assert(numeral(Seq::<char>::empty()) == 0);
        assert(decimal(n).last() == digit_char(n as int));
        assert(numeral(decimal(n)) == numeral(decimal(n).drop_last()) * 10 + (decimal(n).last() as u32 - 48));
    } else {
        lemma_decimal_numeral(n / 10);
        lemma_digit_char((n % 10) as int);
        vstd::arithmetic::div_mod::lemma_fundamental_div_mod(n as int, 10);
        let d = decimal(n);
        assert(d.drop_last() =~= decimal(n / 10));
        assert(d.last() == digit_char((n % 10) as int));
        assert(numeral(d) == numeral(d.drop_last()) * 10 + (d.last() as u32 - 48));
        assert(numeral(d) == (n / 10) * 10 + n % 10);
        assert forall|i: int| 0 <= i < d.len() implies is_digit(#[trigger] d[i]) by {
            if i < d.len() - 1 {
                assert(d[i] == decimal(n / 10)[i]);
            }
        }
    }
}

/// A string without `sep` is its own only piece.
pub proof fn lemma_split_plain(s: Seq<char>, sep: char)
    requires
        !s.contains(sep),
    ensures
        split(s, sep) == seq![s],
    decreases s.len(),
{
    if s.len() > 0 {
        assert(!s.drop_last().contains(sep)) by {
            if s.drop_last().contains(sep) {
                let i = choose|i: int| 0 <= i < s.drop_last().len() && s.drop_last()[i] == sep;
                assert(s[i] == sep);
            }
        }
        lemma_split_plain(s.drop_last(), sep);
        assert(s.last() != sep) by {
            assert(s[s.len() - 1] == s.last());
        }
        assert(s.drop_last().push(s.last()) =~= s);
        assert(seq![s.drop_last()].update(0, s.drop_last().push(s.last())) =~= seq![s]);
    } else {
        assert(s =~= Seq::<char>::empty());
    }
}

/// Appending a separator and a piece without separators appends that piece.
pub proof fn lemma_split_append(x: Seq<char>, y: Seq<char>, sep: char)
    requires
        !y.contains(sep),
    ensures
        split(x + seq![sep] + y, sep) == split(x, sep).push(y),
    decreases y.len(),
{
    let t = x + seq![sep] + y;
    if y.len() == 0 {
        assert(t.drop_last() =~= x);
        assert(y =~= Seq::<char>::empty());
    } else {
        let y0 = y.drop_last();
        assert(!y0.contains(sep)) by {
            if y0.contains(sep) {
                let i = choose|i: int| 0 <= i < y0.len() && y0[i] == sep;
                assert(y[i] == sep);
            }
        }
        lemma_split_append(x, y0, sep);
        assert(t.drop_last() =~= x + seq![sep] + y0);
        assert(t.last() == y[y.len() - 1]);
        lemma_split_nonempty(x, sep);
        assert(y0.push(y.last()) =~= y);
        assert(split(x, sep).push(y0).update(split(x, sep).len() as int, y0.push(y.last())) =~= split(x, sep).push(y));
    }
}

/// A string of digits holds no character but digits.
pub proof fn lemma_digits_exclude(s: Seq<char>, c: char)
    requires
        all_digits(s),
        !is_digit(c),
    ensures
        !s.contains(c),
{
    if s.contains(c) {
        let i = choose|i: int| 0 <= i < s.len() && s[i] == c;
        assert(is_digit(s[i]));
    }
}

/// Numeral values are clamped here, above every number that a field accepts.
pub const NUMERAL_CAP: u32 = 1000;

pub open spec fn clamped(n: int) -> int {
    if n < NUMERAL_CAP {
        n
    } else {
        NUMERAL_CAP as int
    }
}

pub proof fn lemma_numeral_nonneg(s: Seq<char>)
    requires
        all_digits(s),
    ensures
        numeral(s) >= 0,
    decreases s.len(),
{
    if s.len() > 0 {
        assert(is_digit(s[s.len() - 1]));
        lemma_numeral_nonneg(s.drop_last());
    }
}

/// The value of `s` as a decimal numeral, clamped at `NUMERAL_CAP`; `None`
/// unless `s` is a non-empty string of digits.
pub fn parse_numeral(s: &Vec<char>) -> (r: Option<u32>)
    ensures
        match r {
            Some(v) => s.len() > 0 && all_digits(s@) && v as int == clamped(numeral(s@)),
            None => !(s.len() > 0 && all_digits(s@)),
        },
{
    if s.len() == 0 {
        return None;
    }
    let mut v: u32 = 0;
    let mut i: usize = 0;
    while i < s.len()
        invariant
            0 <= i <= s.len(),
            all_digits(s@.take(i as int)),
            v as int == clamped(numeral(s@.take(i as int))),
        decreases s.len() - i,
    {
        let c = s[i];
        let code = c as u32;
        if code < 48 || code > 57 {
            assert(!is_digit(s@[i as int]));
            return None;
        }
        let ghost before = s@.take(i as int);
        proof {
            assert(s@.take(i + 1).drop_last() =~= before);
            lemma_numeral_nonneg(before);
        }
        let d = code - 48;
        if v < NUMERAL_CAP {
            let w = v * 10 + d;
            v = if w > NUMERAL_CAP {
                NUMERAL_CAP
            } else {
                w
            };
        }
        i = i + 1;
        assert(all_digits(s@.take(i as int)));
    }
    assert(s@.take(s.len() as int) =~= s@);
    Some(v)
}

/// The one-character text of digit `d`.
fn digit_str(d: u32) -> (r: &'static str)
    requires
        d < 10,
    ensures
        r@ == seq![digit_char(d as int)],
{
    if d == 0 {
        proof {
            reveal_strlit("0");
        }
        "0"
    } else if d == 1 {
        proof {
            reveal_strlit("1");
        }
        "1"
    } else if d == 2 {
        proof {
            reveal_strlit("2");
        }
        "2"
    } else if d == 3 {
        proof {
            reveal_strlit("3");
        }
        "3"
    } else if d == 4 {
        proof {
            reveal_strlit("4");
        }
        "4"
    } else if d == 5 {
        proof {
            reveal_strlit("5");
        }
        "5"
    } else if d == 6 {
        proof {
            reveal_strlit("6");
        }
        "6"
    } else if d == 7 {
        proof {
            reveal_strlit("7");
        }
        "7"
    } else if d == 8 {
        proof {
            reveal_strlit("8");
        }
        "8"
    } else {
        proof {
            reveal_strlit("9");
        }
        "9"
    }
}

/// Appends the decimal digits of `n` to `out`.
pub fn push_decimal(out: &mut String, n: u32)
    ensures
        final(out)@ == old(out)@ + decimal(n as nat),
    decreases n,
{
    if n >= 10 {
        push_decimal(out, n / 10);
    }
    out.append(digit_str(n % 10));
    assert(decimal(n as nat) =~= if n < 10 { seq![digit_char(n as int)] } else { decimal((n / 10) as nat).push(digit_char((n % 10) as int)) });
}

} // verus!
