//! Text handling: decimal numbers, white space, prefixes and the order of strings.

use vstd::prelude::*;
use vstd::string::*;

verus! {

/// The character of the decimal digit `d`.
pub open spec fn digit(d: nat) -> char {
    (48 + d) as char
}

/// The decimal numeral of `n`, without leading zeros.
pub open spec fn decimal(n: nat) -> Seq<char>
    decreases n,
{
    if n < 10 {
        seq![digit(n)]
    } else {
        decimal(n / 10).push(digit(n % 10))
    }
}

fn digit_text(d: u64) -> (r: &'static str)
    requires
        d < 10,
    ensures
        r@ == seq![digit(d as nat)],
{
    proof {
        reveal_strlit("0");
        reveal_strlit("1");
        reveal_strlit("2");
        reveal_strlit("3");
        reveal_strlit("4");
        reveal_strlit("5");
        reveal_strlit("6");
        reveal_strlit("7");
        reveal_strlit("8");
        reveal_strlit("9");
    }
    let r = match d {
        0 => "0",
        1 => "1",
        2 => "2",
        3 => "3",
        4 => "4",
        5 => "5",
        6 => "6",
        7 => "7",
        8 => "8",
        _ => "9",
    };
    assert(r@ =~= seq![digit(d as nat)]);
    r
}

/// Appends the decimal numeral of `n` to `out`.
pub fn push_decimal(out: &mut String, n: u64)
    ensures
        final(out)@ == old(out)@ + decimal(n as nat),
    decreases n,
{
    if n >= 10 {
        push_decimal(out, n / 10);
    }
    out.append(digit_text(n % 10));
    assert(out@ =~= old(out)@ + decimal(n as nat));
}

fn code(c: char) -> (n: u32)
    ensures
        n as int == c as int,
{
    c as u32
}

/// Whether `c` is a decimal digit.
pub open spec fn is_digit(c: char) -> bool {
    48 <= c as int <= 57
}

/// The number that a sequence of decimal digits stands for.
pub open spec fn digits_value(s: Seq<char>) -> nat
    decreases s.len(),
{
    if s.len() == 0 {
        0
    } else {
        (digits_value(s.drop_last()) * 10 + (s.last() as int - 48)) as nat
    }
}

/// Whether `s` is made of decimal digits alone.
pub open spec fn all_digits(s: Seq<char>) -> bool {
    forall|i: int| 0 <= i < s.len() ==> is_digit(#[trigger] s[i])
}

/// `s` without the plus sign that may stand before it.
pub open spec fn without_plus(s: Seq<char>) -> Seq<char> {
    if s.len() > 0 && s[0] == '+' {
        s.drop_first()
    } else {
        s
    }
}

/// The number that `s` writes: decimal digits, with an optional plus sign before them.
pub open spec fn unsigned(s: Seq<char>) -> Option<nat> {
    let t = without_plus(s);
    if t.len() > 0 && all_digits(t) {
        Some(digits_value(t))
    } else {
        None
    }
}

/// The number that `s` writes, where it fits in 64 bits.
pub open spec fn unsigned_64(s: Seq<char>) -> Option<u64> {
    match unsigned(s) {
        Some(n) => if n <= u64::MAX {
            Some(n as u64)
        } else {
            None
        },
        None => None,
    }
}

proof fn lemma_digits_value_grows(t: Seq<char>, k: int)
    requires
        0 <= k <= t.len(),
        all_digits(t),
    ensures
        digits_value(t.take(k)) <= digits_value(t),
    decreases t.len(),
{
    if k == t.len() {
        assert(t.take(k) =~= t);
    } else {
        assert(is_digit(t[t.len() - 1]));
        assert forall|i: int| 0 <= i < t.drop_last().len() implies is_digit(
            #[trigger] t.drop_last()[i],
        ) by {
            assert(t.drop_last()[i] == t[i]);
        }
        lemma_digits_value_grows(t.drop_last(), k);
        assert(t.drop_last().take(k) =~= t.take(k));
    }
}

/// Reads an unsigned number of at most 64 bits.
pub fn parse_u64(s: &str) -> (r: Option<u64>)
    ensures
        r == unsigned_64(s@),
{
    let chars = to_chars(s);
    let n: usize = chars.len();
    let start: usize = if n > 0 && chars[0] == '+' {
        1
    } else {
        0
    };
    let ghost t = s@.subrange(start as int, n as int);
    proof {
        if start == 1 {
            assert(t =~= s@.drop_first());
        } else {
            assert(t =~= s@);
        }
    }
    if start == n {
        return None;
    }
    let mut value: u64 = 0;
    let mut i: usize = start;
    while i < n
        invariant
            chars@ == s@,
            n == chars.len(),
            start <= i <= n,
            start < n,
            t == s@.subrange(start as int, n as int),
            t == without_plus(s@),
            forall|j: int| 0 <= j < i - start ==> is_digit(#[trigger] t[j]),
            value == digits_value(t.take(i - start)),
        decreases n - i,
    {
        let c: u32 = code(chars[i]);
        let ghost k = i - start;
        assert(t[k] == s@[i as int]);
        if c < 48 || c > 57 {
            assert(!is_digit(t[k]));
            return None;
        }
        let d: u64 = (c - 48) as u64;
        proof {
            assert(t.take(k + 1).drop_last() =~= t.take(k));
            assert(t.take(k + 1).last() == t[k]);
            assert(digits_value(t.take(k + 1)) == value * 10 + d);
            if all_digits(t) {
                lemma_digits_value_grows(t, k + 1);
            }
        }
        if value > (u64::MAX - d) / 10 {
            return None;
        }
        value = value * 10 + d;
        i += 1;
    }
    assert(t.take(n - start) =~= t);
    Some(value)
}

proof fn lemma_decimal_digits(n: nat)
    ensures
        decimal(n).len() > 0,
        all_digits(decimal(n)),
        digits_value(decimal(n)) == n,
    decreases n,
{
    if n < 10 {
        let s = seq![digit(n)];
        assert(s.drop_last() =~= Seq::<char>::empty());
        assert(digits_value(s.drop_last()) == 0);
        assert(s.last() as int == 48 + n);
    } else {
        lemma_decimal_digits(n / 10);
        let s = decimal(n);
        assert(s.drop_last() =~= decimal(n / 10));
        assert(s.last() as int == 48 + n % 10);
        assert forall|i: int| 0 <= i < s.len() implies is_digit(#[trigger] s[i]) by {
            if i < s.len() - 1 {
                assert(s[i] == decimal(n / 10)[i]);
            }
        }
    }
}

/// Reading a number back from its decimal numeral gives the number.
pub proof fn decimal_reads_back(n: u64)
    ensures
        unsigned_64(decimal(n as nat)) == Some(n),
{
    lemma_decimal_digits(n as nat);
    assert(is_digit(decimal(n as nat)[0]));
}

/// The order of strings by their characters.
pub open spec fn text_before(a: Seq<char>, b: Seq<char>) -> bool
    decreases b.len(),
{
    if b.len() == 0 {
        false
    } else if a.len() == 0 {
        true
    } else if a[0] == b[0] {
        text_before(a.drop_first(), b.drop_first())
    } else {
        (a[0] as int) < (b[0] as int)
    }
}

proof fn lemma_before_at(a: Seq<char>, b: Seq<char>, k: int)
    requires
        0 <= k <= a.len(),
        k <= b.len(),
        forall|i: int| 0 <= i < k ==> a[i] == b[i],
    ensures
        text_before(a, b) == text_before(
            a.subrange(k, a.len() as int),
            b.subrange(k, b.len() as int),
        ),
    decreases k,
{
    if k == 0 {
        assert(a.subrange(0, a.len() as int) =~= a);
        assert(b.subrange(0, b.len() as int) =~= b);
    } else {
        let x = a.drop_first();
        let y = b.drop_first();
        assert forall|i: int| 0 <= i < k - 1 implies x[i] == y[i] by {
            assert(x[i] == a[i + 1]);
            assert(y[i] == b[i + 1]);
        }
        lemma_before_at(x, y, k - 1);
        assert(x.subrange(k - 1, x.len() as int) =~= a.subrange(k, a.len() as int));
        assert(y.subrange(k - 1, y.len() as int) =~= b.subrange(k, b.len() as int));
    }
}

/// No string comes before itself.
pub proof fn text_before_irreflexive(a: Seq<char>)
    ensures
        !text_before(a, a),
    decreases a.len(),
{
    if a.len() > 0 {
        text_before_irreflexive(a.drop_first());
    }
}

/// The order of strings is transitive.
pub proof fn text_before_transitive(a: Seq<char>, b: Seq<char>, c: Seq<char>)
    requires
        text_before(a, b),
        text_before(b, c),
    ensures
        text_before(a, c),
    decreases a.len(),
{
    if a.len() > 0 && a[0] == b[0] && b[0] == c[0] {
        text_before_transitive(a.drop_first(), b.drop_first(), c.drop_first());
    }
}

/// Of two different strings one comes before the other.
pub proof fn text_before_total(a: Seq<char>, b: Seq<char>)
    ensures
        a == b || text_before(a, b) || text_before(b, a),
    decreases a.len(),
{
    if a.len() == 0 || b.len() == 0 {
        if a.len() == b.len() {
            assert(a =~= b);
        }
    } else if a[0] == b[0] {
        text_before_total(a.drop_first(), b.drop_first());
        if a.drop_first() == b.drop_first() {
            assert(a =~= seq![a[0]] + a.drop_first());
            assert(b =~= seq![b[0]] + b.drop_first());
        }
    }
}

/// Whether `a` comes before `b` in the order of strings.
pub fn comes_before(a: &str, b: &str) -> (r: bool)
    ensures
        r == text_before(a@, b@),
{
    let xs = to_chars(a);
    let ys = to_chars(b);
    let mut i: usize = 0;
    while i < xs.len() && i < ys.len() && xs[i] == ys[i]
        invariant
            i <= xs.len(),
            i <= ys.len(),
            forall|j: int| 0 <= j < i ==> xs@[j] == ys@[j],
        decreases xs.len() - i,
    {
        i += 1;
    }
    proof {
        lemma_before_at(a@, b@, i as int);
    }
    if i == ys.len() {
        false
    } else if i == xs.len() {
        true
    } else {
        code(xs[i]) < code(ys[i])
    }
}

/// The characters of a string, one by one.
pub fn to_chars(s: &str) -> (v: Vec<char>)
    ensures
        v@ == s@,
{
    let mut v: Vec<char> = Vec::new();
    for c in it: s.chars()
        invariant
            v@ == it.seq().take(it.index() as int),
            it.seq() == s@,
    {
        v.push(c);
        assert(v@ =~= it.seq().take(it.index() + 1));
    }
    assert(v@ =~= s@);
    v
}

/// Strings in the model.
pub open spec fn texts(strings: Seq<String>) -> Seq<Seq<char>> {
    strings.map_values(|s: String| s@)
}

/// Whether two strings hold the same characters.
pub fn same_text(a: &str, b: &str) -> (r: bool)
    ensures
        r == (a@ == b@),
{
    let xs = to_chars(a);
    let ys = to_chars(b);
    if xs.len() != ys.len() {
        return false;
    }
    let mut i: usize = 0;
    while i < xs.len()
        invariant
            xs@ == a@,
            ys@ == b@,
            xs.len() == ys.len(),
            i <= xs.len(),
            forall|j: int| 0 <= j < i ==> xs@[j] == ys@[j],
        decreases xs.len() - i,
    {
        if xs[i] != ys[i] {
            assert(a@[i as int] != b@[i as int]);
            return false;
        }
        i += 1;
    }
    assert(a@ =~= b@);
    true
}

/// Whether `s` begins with `prefix`.
pub fn has_prefix(s: &str, prefix: &str) -> (r: bool)
    ensures
        r == prefix@.is_prefix_of(s@),
{
    let xs = to_chars(s);
    let ys = to_chars(prefix);
    if ys.len() > xs.len() {
        return false;
    }
    let mut i: usize = 0;
    while i < ys.len()
        invariant
            xs@ == s@,
            ys@ == prefix@,
            ys.len() <= xs.len(),
            i <= ys.len(),
            forall|j: int| 0 <= j < i ==> xs@[j] == ys@[j],
        decreases ys.len() - i,
    {
        if xs[i] != ys[i] {
            assert(s@.subrange(0, ys.len() as int)[i as int] != prefix@[i as int]);
            return false;
        }
        i += 1;
    }
    assert(prefix@ =~= s@.subrange(0, ys.len() as int));
    true
}

/// The Unicode characters that count as white space.
pub open spec fn is_space(c: char) -> bool {
    let n = c as int;
    ||| 0x9 <= n <= 0xd
    ||| n == 0x20
    ||| n == 0x85
    ||| n == 0xa0
    ||| n == 0x1680
    ||| 0x2000 <= n <= 0x200a
    ||| n == 0x2028
    ||| n == 0x2029
    ||| n == 0x202f
    ||| n == 0x205f
    ||| n == 0x3000
}

fn space(c: char) -> (r: bool)
    ensures
        r == is_space(c),
{
    let n: u32 = code(c);
    (0x9 <= n && n <= 0xd) || n == 0x20 || n == 0x85 || n == 0xa0 || n == 0x1680 || (0x2000 <= n && n
        <= 0x200a) || n == 0x2028 || n == 0x2029 || n == 0x202f || n == 0x205f || n == 0x3000
}

/// `s` without the characters at its start that satisfy `drop`.
pub open spec fn trim_start(s: Seq<char>, drop: spec_fn(char) -> bool) -> Seq<char>
    decreases s.len(),
{
    if s.len() > 0 && drop(s.first()) {
        trim_start(s.drop_first(), drop)
    } else {
        s
    }
}

/// `s` without the characters at its end that satisfy `drop`.
pub open spec fn trim_end(s: Seq<char>, drop: spec_fn(char) -> bool) -> Seq<char>
    decreases s.len(),
{
    if s.len() > 0 && drop(s.last()) {
        trim_end(s.drop_last(), drop)
    } else {
        s
    }
}

/// `s` without the white space around it.
pub open spec fn trimmed(s: Seq<char>) -> Seq<char> {
    trim_end(trim_start(s, |c: char| is_space(c)), |c: char| is_space(c))
}

/// Whether `s` holds nothing but white space.
pub open spec fn is_blank(s: Seq<char>) -> bool {
    forall|i: int| 0 <= i < s.len() ==> is_space(#[trigger] s[i])
}

proof fn lemma_trim_start_at(s: Seq<char>, drop: spec_fn(char) -> bool, n: int)
    requires
        0 <= n <= s.len(),
        forall|i: int| 0 <= i < n ==> drop(#[trigger] s[i]),
        n < s.len() ==> !drop(s[n]),
    ensures
        trim_start(s, drop) == s.subrange(n, s.len() as int),
    decreases n,
{
    if n > 0 {
        assert(drop(s[0]));
        let t = s.drop_first();
        assert forall|i: int| 0 <= i < n - 1 implies drop(#[trigger] t[i]) by {
            assert(t[i] == s[i + 1]);
        }
        lemma_trim_start_at(t, drop, n - 1);
        assert(t.subrange(n - 1, t.len() as int) =~= s.subrange(n, s.len() as int));
    } else {
        assert(s.subrange(0, s.len() as int) =~= s);
    }
}

proof fn lemma_trim_end_at(s: Seq<char>, drop: spec_fn(char) -> bool, n: int)
    requires
        0 <= n <= s.len(),
        forall|i: int| n <= i < s.len() ==> drop(#[trigger] s[i]),
        n > 0 ==> !drop(s[n - 1]),
    ensures
        trim_end(s, drop) == s.subrange(0, n),
    decreases s.len(),
{
    if n < s.len() {
        assert(drop(s[s.len() - 1]));
        let t = s.drop_last();
        assert forall|i: int| n <= i < t.len() implies drop(#[trigger] t[i]) by {
            assert(t[i] == s[i]);
        }
        lemma_trim_end_at(t, drop, n);
        assert(t.subrange(0, n) =~= s.subrange(0, n));
    } else {
        assert(s.subrange(0, n) =~= s);
    }
}

/// Trimming leaves nothing exactly where there is nothing but white space.
pub proof fn lemma_trimmed_blank(s: Seq<char>)
    ensures
        (trimmed(s).len() == 0) == is_blank(s),
    decreases s.len(),
{
    let drop = |c: char| is_space(c);
    if is_blank(s) {
        lemma_trim_start_at(s, drop, s.len() as int);
    } else {
        let first = lemma_first_kept(s);
        lemma_trim_start_at(s, drop, first);
        let t = s.subrange(first, s.len() as int);
        assert(t[0] == s[first]);
        let last = lemma_last_kept(t);
        lemma_trim_end_at(t, drop, last + 1);
    }
}

proof fn lemma_first_kept(s: Seq<char>) -> (n: int)
    requires
        !is_blank(s),
    ensures
        0 <= n < s.len(),
        !is_space(s[n]),
        forall|i: int| 0 <= i < n ==> is_space(#[trigger] s[i]),
    decreases s.len(),
{
    if !is_space(s[0]) {
        0
    } else {
        let t = s.drop_first();
        if is_blank(t) {
            assert forall|i: int| 0 <= i < s.len() implies is_space(#[trigger] s[i]) by {
                if i > 0 {
                    assert(s[i] == t[i - 1]);
                }
            }
        }
        let n = lemma_first_kept(t);
        assert forall|i: int| 0 <= i < n + 1 implies is_space(#[trigger] s[i]) by {
            if i > 0 {
                assert(s[i] == t[i - 1]);
            }
        }
        n + 1
    }
}

proof fn lemma_last_kept(s: Seq<char>) -> (n: int)
    requires
        s.len() > 0,
        !is_space(s[0]),
    ensures
        0 <= n < s.len(),
        !is_space(s[n]),
        forall|i: int| n < i < s.len() ==> is_space(#[trigger] s[i]),
    decreases s.len(),
{
    if !is_space(s.last()) {
        s.len() - 1
    } else {
        let t = s.drop_last();
        let n = lemma_last_kept(t);
        assert forall|i: int| n < i < s.len() implies is_space(#[trigger] s[i]) by {
            if i < s.len() - 1 {
                assert(s[i] == t[i]);
            }
        }
        n
    }
}

/// `s` without the white space around it.
pub fn trim_spaces(s: &str) -> (r: &str)
    ensures
        r@ == trimmed(s@),
{
    let chars = to_chars(s);
    let ghost drop = |c: char| is_space(c);
    let n: usize = chars.len();
    let mut from: usize = 0;
    while from < n && space(chars[from])
        invariant
            n == chars.len(),
            from <= n,
            forall|i: int| 0 <= i < from ==> is_space(#[trigger] chars@[i]),
        decreases n - from,
    {
        from += 1;
    }
    proof {
        lemma_trim_start_at(s@, drop, from as int);
    }
    let mut to: usize = n;
    while from < to && space(chars[to - 1])
        invariant
            n == chars.len(),
            from <= to <= n,
            forall|i: int| to <= i < n ==> is_space(#[trigger] chars@[i]),
        decreases to,
    {
        to -= 1;
    }
    proof {
        let t = s@.subrange(from as int, n as int);
        assert forall|i: int| to - from <= i < t.len() implies drop(#[trigger] t[i]) by {
            assert(t[i] == chars@[i + from]);
        }
        lemma_trim_end_at(t, drop, to - from);
        assert(t.subrange(0, to - from) =~= s@.subrange(from as int, to as int));
    }
    s.substring_char(from, to)
}

/// Whether `s` holds nothing but white space.
pub fn blank(s: &str) -> (r: bool)
    ensures
        r == is_blank(s@),
{
    proof {
        lemma_trimmed_blank(s@);
    }
    trim_spaces(s).is_empty()
}

/// `s` without the slashes at its start.
pub open spec fn without_leading_slashes(s: Seq<char>) -> Seq<char> {
    trim_start(s, |c: char| c == '/')
}

/// `s` without the slashes at its end.
pub open spec fn without_trailing_slashes(s: Seq<char>) -> Seq<char> {
    trim_end(s, |c: char| c == '/')
}

/// Drops the slashes at the start of `s`.
pub fn drop_leading_slashes(s: &str) -> (r: String)
    ensures
        r@ == without_leading_slashes(s@),
{
    let chars = to_chars(s);
    let n: usize = chars.len();
    let mut from: usize = 0;
    while from < n && chars[from] == '/'
        invariant
            n == chars.len(),
            from <= n,
            forall|i: int| 0 <= i < from ==> #[trigger] chars@[i] == '/',
        decreases n - from,
    {
        from += 1;
    }
    proof {
        lemma_trim_start_at(s@, |c: char| c == '/', from as int);
    }
    s.substring_char(from, n).to_owned()
}

/// Drops the slashes at the end of `s`.
pub fn drop_trailing_slashes(s: &str) -> (r: String)
    ensures
        r@ == without_trailing_slashes(s@),
{
    let chars = to_chars(s);
    let n: usize = chars.len();
    let mut to: usize = n;
    while 0 < to && chars[to - 1] == '/'
        invariant
            n == chars.len(),
            to <= n,
            forall|i: int| to <= i < n ==> #[trigger] chars@[i] == '/',
        decreases to,
    {
        to -= 1;
    }
    proof {
        lemma_trim_end_at(s@, |c: char| c == '/', to as int);
    }
    s.substring_char(0, to).to_owned()
}

/// A number is read digit by digit: a digit stands for itself, one more digit makes ten times the
/// number and the digit, and a plus sign before the digits changes nothing. No digits are no number.
pub proof fn digits_are_read_one_by_one(s: Seq<char>, c: char)
    requires
        forall|i: int| 0 <= i < s.len() ==> 48 <= (#[trigger] s[i]) as int <= 57,
        48 <= c as int <= 57,
    ensures
        unsigned(Seq::empty()) is None,
        unsigned(seq!['+']) is None,
        unsigned(seq![c]) == Some((c as int - 48) as nat),
        s.len() > 0 ==> (unsigned(s) matches Some(n) && unsigned(s.push(c)) == Some(
            (10 * n + (c as int - 48)) as nat,
        )),
        s.len() > 0 ==> unsigned(seq!['+'] + s) == unsigned(s),
{
    assert forall|i: int| 0 <= i < s.len() implies is_digit(#[trigger] s[i]) by {}
    assert(seq!['+'].drop_first() =~= Seq::<char>::empty());
    let one = seq![c];
    assert(one.drop_last() =~= Seq::<char>::empty());
    assert(digits_value(one.drop_last()) == 0);
    assert(without_plus(one) == one);
    let more = s.push(c);
    assert(more.drop_last() =~= s);
    if s.len() > 0 {
        assert(is_digit(s[0]));
        assert(more[0] == s[0]);
        assert forall|i: int| 0 <= i < more.len() implies is_digit(#[trigger] more[i]) by {
            if i < s.len() {
                assert(more[i] == s[i]);
            }
        }
        let signed = seq!['+'] + s;
        assert(signed[0] == '+');
        assert(signed.drop_first() =~= s);
    }
}

/// A text with anything but digits in it is no number, a plus sign at its start aside.
pub proof fn what_is_no_digit_is_not_read(s: Seq<char>, i: int)
    requires
        0 <= i < s.len(),
        !(48 <= s[i] as int <= 57),
        i > 0 || s[0] != '+',
    ensures
        unsigned(s) is None,
        unsigned_64(s) is None,
{
    let t = without_plus(s);
    if s[0] == '+' {
        assert(t[i - 1] == s[i]);
        assert(!is_digit(t[i - 1]));
    } else {
        assert(!is_digit(t[i]));
    }
}

/// A number is read exactly where it fits in 64 bits.
pub proof fn numbers_are_read_up_to_64_bits(s: Seq<char>)
    ensures
        unsigned_64(s) is Some <==> (unsigned(s) matches Some(n) && n <= 0xffff_ffff_ffff_ffff),
        unsigned_64(s) matches Some(n) ==> unsigned(s) == Some(n as nat),
{
}

/// The numeral of a number reads back as the number, whatever its size. It has digits alone, and no
/// zero before them.
pub proof fn numerals_are_canonical(n: nat)
    ensures
        unsigned(decimal(n)) == Some(n),
        decimal(n).len() > 0,
        forall|i: int| 0 <= i < decimal(n).len() ==> 48 <= (#[trigger] decimal(n)[i]) as int <= 57,
        decimal(n).len() > 1 ==> decimal(n)[0] != '0',
    decreases n,
{
    lemma_decimal_digits(n);
    assert(is_digit(decimal(n)[0]));
    assert forall|i: int| 0 <= i < decimal(n).len() implies 48 <= (#[trigger] decimal(n)[i]) as int
        <= 57 by {
        assert(is_digit(decimal(n)[i]));
    }
    if n >= 10 {
        numerals_are_canonical(n / 10);
        assert(decimal(n)[0] == decimal(n / 10)[0]);
        if decimal(n / 10).len() == 1 {
            assert(n / 10 < 10) by {
                if n / 10 >= 10 {
                    lemma_decimal_digits(n / 10 / 10);
                }
            }
            assert(decimal(n / 10) == seq![digit(n / 10)]);
            assert(digit(n / 10) as int == 48 + n / 10);
        }
    }
}

/// The first difference decides which string comes first; where there is none, the shorter one does.
pub proof fn the_first_difference_decides(
    common: Seq<char>,
    a: char,
    b: char,
    x: Seq<char>,
    y: Seq<char>,
)
    ensures
        a != b ==> (text_before(common + seq![a] + x, common + seq![b] + y) <==> (a as int) < (
        b as int)),
        text_before(common, common + seq![a] + x),
        !text_before(common + seq![a] + x, common),
    decreases common.len(),
{
    let p = common + seq![a] + x;
    let q = common + seq![b] + y;
    if common.len() > 0 {
        let rest = common.drop_first();
        the_first_difference_decides(rest, a, b, x, y);
        assert(p[0] == common[0] && q[0] == common[0]);
        assert(p.drop_first() =~= rest + seq![a] + x);
        assert(q.drop_first() =~= rest + seq![b] + y);
    } else {
        assert(p[0] == a && q[0] == b);
    }
}

/// The code points of the white space of Unicode.
pub open spec fn white_space() -> Seq<int> {
    seq![
        0x9int, 0xa, 0xb, 0xc, 0xd, 0x20, 0x85, 0xa0, 0x1680, 0x2000, 0x2001, 0x2002, 0x2003, 0x2004,
        0x2005, 0x2006, 0x2007, 0x2008, 0x2009, 0x200a, 0x2028, 0x2029, 0x202f, 0x205f, 0x3000,
    ]
}

/// The white space of Unicode counts as white space, and nothing else does.
pub proof fn white_space_is_that_of_unicode(c: char)
    ensures
        is_space(c) <==> white_space().contains(c as int),
{
    let all = white_space();
    let n = c as int;
    if is_space(c) {
        let i: int = if n <= 0xd {
            n - 0x9
        } else if n == 0x20 {
            5
        } else if n == 0x85 {
            6
        } else if n == 0xa0 {
            7
        } else if n == 0x1680 {
            8
        } else if n <= 0x200a {
            n - 0x2000 + 9
        } else if n == 0x2028 {
            20
        } else if n == 0x2029 {
            21
        } else if n == 0x202f {
            22
        } else if n == 0x205f {
            23
        } else {
            24
        };
        assert(all[i] == n);
    }
}

/// Trimming takes away the white space at both ends and nothing else: what is left stands in the
/// text, has white space alone before and behind it, and neither begins nor ends with any.
pub proof fn trimming_takes_white_space_from_the_ends(s: Seq<char>) -> (ends: (int, int))
    ensures
        0 <= ends.0 <= ends.1 <= s.len(),
        trimmed(s) == s.subrange(ends.0, ends.1),
        forall|i: int| 0 <= i < ends.0 || ends.1 <= i < s.len() ==> is_space(#[trigger] s[i]),
        ends.0 < ends.1 ==> !is_space(s[ends.0]) && !is_space(s[ends.1 - 1]),
        is_blank(s) <==> ends.0 == ends.1,
{
    let drop = |c: char| is_space(c);
    if is_blank(s) {
        lemma_trim_start_at(s, drop, s.len() as int);
        let nothing = s.subrange(s.len() as int, s.len() as int);
        lemma_trim_end_at(nothing, drop, 0);
        assert(nothing.subrange(0, 0) =~= nothing);
        (s.len() as int, s.len() as int)
    } else {
        let first = lemma_first_kept(s);
        lemma_trim_start_at(s, drop, first);
        let t = s.subrange(first, s.len() as int);
        assert(t[0] == s[first]);
        let last = lemma_last_kept(t);
        lemma_trim_end_at(t, drop, last + 1);
        assert(t.subrange(0, last + 1) =~= s.subrange(first, first + last + 1));
        assert(t[last] == s[first + last]);
        assert forall|i: int| first + last + 1 <= i < s.len() implies is_space(#[trigger] s[i]) by {
            assert(t[i - first] == s[i]);
        }
        (first, first + last + 1)
    }
}

proof fn lemma_first_other(s: Seq<char>) -> (n: int)
    ensures
        0 <= n <= s.len(),
        forall|i: int| 0 <= i < n ==> (#[trigger] s[i]) == '/',
        n < s.len() ==> s[n] != '/',
    decreases s.len(),
{
    if s.len() > 0 && s[0] == '/' {
        let n = lemma_first_other(s.drop_first());
        assert forall|i: int| 0 <= i < n + 1 implies (#[trigger] s[i]) == '/' by {
            if i > 0 {
                assert(s.drop_first()[i - 1] == s[i]);
            }
        }
        n + 1
    } else {
        0
    }
}

proof fn lemma_last_other(s: Seq<char>) -> (n: int)
    ensures
        0 <= n <= s.len(),
        forall|i: int| n <= i < s.len() ==> (#[trigger] s[i]) == '/',
        n > 0 ==> s[n - 1] != '/',
    decreases s.len(),
{
    if s.len() > 0 && s.last() == '/' {
        let n = lemma_last_other(s.drop_last());
        assert forall|i: int| n <= i < s.len() implies (#[trigger] s[i]) == '/' by {
            if i < s.len() - 1 {
                assert(s.drop_last()[i] == s[i]);
            }
        }
        n
    } else {
        s.len() as int
    }
}

/// Dropping slashes at the start or at the end takes away all slashes there and nothing else.
pub proof fn slashes_go_from_one_end(s: Seq<char>) -> (ends: (int, int))
    ensures
        0 <= ends.0 <= s.len() && 0 <= ends.1 <= s.len(),
        without_leading_slashes(s) == s.subrange(ends.0, s.len() as int),
        forall|i: int| 0 <= i < ends.0 ==> (#[trigger] s[i]) == '/',
        ends.0 < s.len() ==> s[ends.0] != '/',
        without_trailing_slashes(s) == s.subrange(0, ends.1),
        forall|i: int| ends.1 <= i < s.len() ==> (#[trigger] s[i]) == '/',
        ends.1 > 0 ==> s[ends.1 - 1] != '/',
{
    let first = lemma_first_other(s);
    let last = lemma_last_other(s);
    lemma_trim_start_at(s, |c: char| c == '/', first);
    lemma_trim_end_at(s, |c: char| c == '/', last);
    (first, last)
}

/// A list of strings in the model is the characters of each, in their order.
pub proof fn texts_are_the_strings(strings: Seq<String>, i: int)
    requires
        0 <= i < strings.len(),
    ensures
        texts(strings).len() == strings.len(),
        texts(strings)[i] == strings[i]@,
{
}

} // verus!
