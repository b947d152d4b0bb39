//! Character-level helpers: decimal rendering of integers, substring search,
//! URL space escaping, whitespace trimming and line splitting.
use vstd::prelude::*;

verus! {

/// The character of a decimal digit `d` (0 to 9).
pub open spec fn digit_char(d: nat) -> char {
    if d == 0 { '0' }
    else if d == 1 { '1' }
    else if d == 2 { '2' }
    else if d == 3 { '3' }
    else if d == 4 { '4' }
    else if d == 5 { '5' }
    else if d == 6 { '6' }
    else if d == 7 { '7' }
    else if d == 8 { '8' }
    else { '9' }
}

/// Decimal digits of a natural number, most significant first, no leading zeros.
pub open spec fn nat_decimal(n: nat) -> Seq<char>
    decreases n,
{
    if n < 10 {
        seq![digit_char(n)]
    } else {
        nat_decimal(n / 10).push(digit_char(n % 10))
    }
}

/// Decimal rendering of a signed integer, as `i32::to_string` gives it.
pub open spec fn int_decimal(n: int) -> Seq<char> {
    if n < 0 {
        seq!['-'] + nat_decimal((-n) as nat)
    } else {
        nat_decimal(n as nat)
    }
}

/// Every decimal rendering is at least one digit long, and is made of digits only.
pub proof fn lemma_nat_decimal_digits(n: nat)
    ensures
        nat_decimal(n).len() >= 1,
        forall|i: int| 0 <= i < nat_decimal(n).len() ==> #[trigger] nat_decimal(n)[i] != '-',
    decreases n,
{
    if n >= 10 {
        lemma_nat_decimal_digits(n / 10);
    }
}

/// Different digits have different characters.
pub proof fn lemma_digit_char_injective(a: nat, b: nat)
    requires
        a < 10,
        b < 10,
        digit_char(a) == digit_char(b),
    ensures
        a == b,
{
}

/// Different natural numbers have different decimal renderings.
pub proof fn lemma_nat_decimal_injective(a: nat, b: nat)
    requires
        nat_decimal(a) == nat_decimal(b),
    ensures
        a == b,
    decreases a,
{
    lemma_nat_decimal_digits(a);
    lemma_nat_decimal_digits(b);
    if a < 10 && b < 10 {
        assert(nat_decimal(a)[0] == digit_char(a));
        assert(nat_decimal(b)[0] == digit_char(b));
        lemma_digit_char_injective(a, b);
    } else if a < 10 {
        lemma_nat_decimal_digits(b / 10);
        assert(nat_decimal(b).len() >= 2);
    } else if b < 10 {
        lemma_nat_decimal_digits(a / 10);
        assert(nat_decimal(a).len() >= 2);
    } else {
        let da = nat_decimal(a / 10);
        let db = nat_decimal(b / 10);
        assert(nat_decimal(a).last() == digit_char(a % 10));
        assert(nat_decimal(b).last() == digit_char(b % 10));
        assert(a % 10 == b % 10) by {
            lemma_digit_char_injective(a % 10, b % 10);
        }
        assert(nat_decimal(a).drop_last() =~= da);
        assert(nat_decimal(b).drop_last() =~= db);
        lemma_nat_decimal_injective(a / 10, b / 10);
        assert(a == 10 * (a / 10) + a % 10);
        assert(b == 10 * (b / 10) + b % 10);
    }
}

/// Different integers have different decimal renderings, so keys made from distinct ids
/// never collide.
pub proof fn lemma_int_decimal_injective(a: int, b: int)
    requires
        int_decimal(a) == int_decimal(b),
    ensures
        a == b,
{
    if a < 0 && b < 0 {
        assert(int_decimal(a).drop_first() =~= nat_decimal((-a) as nat));
        assert(int_decimal(b).drop_first() =~= nat_decimal((-b) as nat));
        lemma_nat_decimal_injective((-a) as nat, (-b) as nat);
    } else if a < 0 {
        lemma_nat_decimal_digits(b as nat);
        assert(int_decimal(a)[0] == '-');
        assert(int_decimal(b)[0] != '-');
    } else if b < 0 {
        lemma_nat_decimal_digits(a as nat);
        assert(int_decimal(b)[0] == '-');
        assert(int_decimal(a)[0] != '-');
    } else {
        lemma_nat_decimal_injective(a as nat, b as nat);
    }
}

/// The number that a string of decimal digits denotes, most significant digit first.
pub open spec fn decimal_value(s: Seq<char>) -> int
    decreases s.len(),
{
    if s.len() == 0 {
        0
    } else {
        10 * decimal_value(s.drop_last()) + (s.last() as int - 48)
    }
}

/// `c` is one of the characters `0` to `9`.
pub open spec fn is_digit(c: char) -> bool {
    48 <= c as int <= 57
}

/// The decimal rendering of `n` is made of digits, does not start with `0` unless it is
/// `0` itself, and denotes `n`.
pub proof fn lemma_nat_decimal_value(n: nat)
    ensures
        forall|i: int| 0 <= i < nat_decimal(n).len() ==> is_digit(#[trigger] nat_decimal(n)[i]),
        n > 0 ==> nat_decimal(n)[0] != '0',
        decimal_value(nat_decimal(n)) == n,
    decreases n,
{
    lemma_nat_decimal_digits(n);
    if n < 10 {
        assert(decimal_value(nat_decimal(n).drop_last()) == 0);
    } else {
        lemma_nat_decimal_value(n / 10);
        let d = nat_decimal(n);
        assert(d.drop_last() =~= nat_decimal(n / 10));
        assert forall|i: int| 0 <= i < d.len() implies is_digit(#[trigger] d[i]) by {
            if i < d.len() - 1 {
                assert(d[i] == nat_decimal(n / 10)[i]);
            }
        }
        assert(d[0] == nat_decimal(n / 10)[0]);
        assert(n == 10 * (n / 10) + n % 10);
    }
}

/// The decimal rendering of an integer: a `-` before the digits of its magnitude when it
/// is negative, the digits alone otherwise; the digits denote the magnitude.
pub proof fn lemma_int_decimal_value(n: int)
    ensures
        n < 0 ==> int_decimal(n)[0] == '-' && decimal_value(int_decimal(n).drop_first()) == -n
            && forall|i: int|
            1 <= i < int_decimal(n).len() ==> is_digit(#[trigger] int_decimal(n)[i]),
        n >= 0 ==> decimal_value(int_decimal(n)) == n && forall|i: int|
            0 <= i < int_decimal(n).len() ==> is_digit(#[trigger] int_decimal(n)[i]),
{
    if n < 0 {
        let m = (-n) as nat;
        lemma_nat_decimal_value(m);
        assert(int_decimal(n).drop_first() =~= nat_decimal(m));
        assert forall|i: int| 1 <= i < int_decimal(n).len() implies is_digit(
            #[trigger] int_decimal(n)[i],
        ) by {
            assert(int_decimal(n)[i] == nat_decimal(m)[i - 1]);
        }
    } else {
        lemma_nat_decimal_value(n as nat);
    }
}

fn digit_str(d: u64) -> (r: &'static str)
    requires
        d < 10,
    ensures
        r@ == seq![digit_char(d as nat)],
{
    let digits = "0123456789";
    proof {
        reveal_strlit("0123456789");
    }
    let r = digits.substring_char(d as usize, (d + 1) as usize);
    assert(r@ =~= seq![digit_char(d as nat)]);
    r
}

/// Decimal rendering of a non-negative value.
fn u64_to_decimal(n: u64) -> (r: String)
    ensures
        r@ == nat_decimal(n as nat),
    decreases n,
{
    if n < 10 {
        String::from_str(digit_str(n))
    } else {
        let mut r = u64_to_decimal(n / 10);
        r.append(digit_str(n % 10));
        r
    }
}

/// Renders `n` in decimal, with a leading `-` when it is negative.
pub fn i32_to_decimal(n: i32) -> (r: String)
    ensures
        r@ == int_decimal(n as int),
{
    if n < 0 {
        let mag: u64 = (0i64 - (n as i64)) as u64;
        let digits = u64_to_decimal(mag);
        let mut r = String::from_str("-");
        proof {
            reveal_strlit("-");
        }
        r.append(digits.as_str());
        r
    } else {
        u64_to_decimal(n as u64)
    }
}


/// `needle` occurs in `hay` starting at position `i`.
pub open spec fn occurs_at(hay: Seq<char>, needle: Seq<char>, i: int) -> bool {
    0 <= i && i + needle.len() <= hay.len() && hay.subrange(i, i + needle.len()) == needle
}

/// `needle` is a contiguous part of `hay` (the empty sequence is part of every sequence).
pub open spec fn contains_seq(hay: Seq<char>, needle: Seq<char>) -> bool {
    exists|i: int| occurs_at(hay, needle, i)
}

/// Substring search: whether `needle` occurs in `hay`, as `str::contains` answers it.
pub fn str_contains(hay: &str, needle: &str) -> (r: bool)
    ensures
        r == contains_seq(hay@, needle@),
{
    let hl = hay.unicode_len();
    let nl = needle.unicode_len();
    if nl > hl {
        assert forall|i: int| !occurs_at(hay@, needle@, i) by {}
        return false;
    }
    let target = String::from_str(needle);
    let last = hl - nl;
    let mut i: usize = 0;
    loop
        invariant
            hl == hay@.len(),
            nl == needle@.len(),
            last == hl - nl,
            i <= last,
            target@ == needle@,
            forall|j: int| 0 <= j < i ==> !occurs_at(hay@, needle@, j),
        decreases last - i,
    {
        let candidate = String::from_str(hay.substring_char(i, i + nl));
        if candidate == target {
            assert(occurs_at(hay@, needle@, i as int));
            return true;
        }
        if i == last {
            assert forall|j: int| !occurs_at(hay@, needle@, j) by {
                if 0 <= j < i {
                }
            }
            return false;
        }
        i = i + 1;
    }
}

/// What one character becomes in a URL: a space is written `%20`.
pub open spec fn escape_char(c: char) -> Seq<char> {
    if c == ' ' {
        seq!['%', '2', '0']
    } else {
        seq![c]
    }
}

/// Every space of `s` replaced by `%20`, the other characters kept in order.
pub open spec fn escape_spaces(s: Seq<char>) -> Seq<char>
    decreases s.len(),
{
    if s.len() == 0 {
        Seq::empty()
    } else {
        escape_spaces(s.drop_last()) + escape_char(s.last())
    }
}

/// Escaping leaves no space behind.
pub proof fn lemma_escape_removes_spaces(s: Seq<char>)
    ensures
        !escape_spaces(s).contains(' '),
    decreases s.len(),
{
    if s.len() > 0 {
        lemma_escape_removes_spaces(s.drop_last());
        let prev = escape_spaces(s.drop_last());
        let piece = escape_char(s.last());
        assert forall|i: int| 0 <= i < escape_spaces(s).len() implies escape_spaces(s)[i] != ' ' by {
            if i < prev.len() {
                assert(escape_spaces(s)[i] == prev[i]);
            } else {
                assert(escape_spaces(s)[i] == piece[i - prev.len()]);
            }
        }
    }
}

/// Escaping works character by character: text without spaces is kept as it is, a single
/// space becomes `%20`, and the escape of two joined texts is the two escapes joined.
pub proof fn lemma_escape_spaces_pieces(a: Seq<char>, b: Seq<char>)
    ensures
        !a.contains(' ') ==> escape_spaces(a) == a,
        escape_spaces(seq![' ']) == seq!['%', '2', '0'],
        escape_spaces(a + b) == escape_spaces(a) + escape_spaces(b),
    decreases b.len(),
{
    lemma_escape_keeps_plain_text(a);
    assert(seq![' '].drop_last() =~= Seq::<char>::empty());
    assert(escape_spaces(Seq::<char>::empty()) == Seq::<char>::empty());
    assert(escape_spaces(seq![' ']) =~= Seq::<char>::empty() + seq!['%', '2', '0']);
    if b.len() == 0 {
        assert(a + b =~= a);
        assert(escape_spaces(a) + escape_spaces(b) =~= escape_spaces(a));
    } else {
        lemma_escape_spaces_pieces(a, b.drop_last());
        assert((a + b).drop_last() =~= a + b.drop_last());
        assert((a + b).last() == b.last());
        assert(escape_spaces(a) + escape_spaces(b.drop_last()) + escape_char(b.last())
            =~= escape_spaces(a) + (escape_spaces(b.drop_last()) + escape_char(b.last())));
    }
}

/// Text without spaces is left unchanged by escaping.
pub proof fn lemma_escape_keeps_plain_text(a: Seq<char>)
    ensures
        !a.contains(' ') ==> escape_spaces(a) == a,
    decreases a.len(),
{
    if a.len() > 0 && !a.contains(' ') {
        let t = a.drop_last();
        assert(!t.contains(' ')) by {
            if t.contains(' ') {
                let k = choose|k: int| 0 <= k < t.len() && t[k] == ' ';
                assert(a[k] == ' ');
            }
        }
        lemma_escape_keeps_plain_text(t);
        assert(a.last() != ' ') by {
            if a.last() == ' ' {
                assert(a[a.len() - 1] == ' ');
            }
        }
        assert(t + seq![a.last()] =~= a);
    }
}

/// Replaces each space of `url` with `%20`, as `url.replace(" ", "%20")` does.
pub fn escape_url_spaces(url: &str) -> (r: String)
    ensures
        r@ == escape_spaces(url@),
{
    let n = url.unicode_len();
    let mut r = String::new();
    let mut i: usize = 0;
    while i < n
        invariant
            n == url@.len(),
            i <= n,
            r@ == escape_spaces(url@.take(i as int)),
        decreases n - i,
    {
        let c = url.get_char(i);
        assert(url@.take(i + 1).drop_last() =~= url@.take(i as int));
        if c == ' ' {
            proof {
                reveal_strlit("%20");
            }
            r.append("%20");
        } else {
            r.append(url.substring_char(i, i + 1));
        }
        i = i + 1;
    }
    assert(url@.take(n as int) =~= url@);
    r
}

/// The Unicode `White_Space` characters, which `char::is_whitespace` accepts.
pub open spec fn is_white_space(c: char) -> bool {
    let v = c as u32;
    ||| 9 <= v <= 13
    ||| v == 32
    ||| v == 0x85
    ||| v == 0xa0
    ||| v == 0x1680
    ||| 0x2000 <= v <= 0x200a
    ||| v == 0x2028
    ||| v == 0x2029
    ||| v == 0x202f
    ||| v == 0x205f
    ||| v == 0x3000
}

/// Whether `c` is a Unicode white space character.
pub fn char_is_white_space(c: char) -> (r: bool)
    ensures
        r == is_white_space(c),
{
    let v = c as u32;
    (9 <= v && v <= 13) || v == 32 || v == 0x85 || v == 0xa0 || v == 0x1680 || (0x2000 <= v
        && v <= 0x200a) || v == 0x2028 || v == 0x2029 || v == 0x202f || v == 0x205f || v
        == 0x3000
}

/// `s` without its leading white space.
pub open spec fn trim_start(s: Seq<char>) -> Seq<char>
    decreases s.len(),
{
    if s.len() > 0 && is_white_space(s[0]) {
        trim_start(s.drop_first())
    } else {
        s
    }
}

/// `s` without its trailing white space.
pub open spec fn trim_end(s: Seq<char>) -> Seq<char>
    decreases s.len(),
{
    if s.len() > 0 && is_white_space(s.last()) {
        trim_end(s.drop_last())
    } else {
        s
    }
}

/// `s` without leading and trailing white space, as `str::trim` gives it.
pub open spec fn trim(s: Seq<char>) -> Seq<char> {
    trim_end(trim_start(s))
}

/// Trimming the start drops exactly the leading white space: the first `a` characters,
/// all white space, up to a character that is not.
pub proof fn lemma_trim_start_shape(s: Seq<char>) -> (a: int)
    ensures
        0 <= a <= s.len(),
        trim_start(s) == s.skip(a),
        forall|i: int| 0 <= i < a ==> is_white_space(#[trigger] s[i]),
        a < s.len() ==> !is_white_space(s[a]),
    decreases s.len(),
{
    if s.len() > 0 && is_white_space(s[0]) {
        let t = s.drop_first();
        let a1 = lemma_trim_start_shape(t);
        assert(t.skip(a1) =~= s.skip(a1 + 1));
        assert forall|i: int| 0 <= i < a1 + 1 implies is_white_space(#[trigger] s[i]) by {
            if i > 0 {
                assert(s[i] == t[i - 1]);
            }
        }
        a1 + 1
    } else {
        assert(s.skip(0) =~= s);
        0
    }
}

/// Trimming the end drops exactly the trailing white space: what follows the first `b`
/// characters is all white space, and the character before it is not.
pub proof fn lemma_trim_end_shape(s: Seq<char>) -> (b: int)
    ensures
        0 <= b <= s.len(),
        trim_end(s) == s.take(b),
        forall|i: int| b <= i < s.len() ==> is_white_space(#[trigger] s[i]),
        b > 0 ==> !is_white_space(s[b - 1]),
    decreases s.len(),
{
    if s.len() > 0 && is_white_space(s.last()) {
        let t = s.drop_last();
        let b1 = lemma_trim_end_shape(t);
        assert(t.take(b1) =~= s.take(b1));
        assert forall|i: int| b1 <= i < s.len() implies is_white_space(#[trigger] s[i]) by {
            if i < s.len() - 1 {
                assert(s[i] == t[i]);
            }
        }
        b1
    } else {
        assert(s.take(s.len() as int) =~= s);
        s.len() as int
    }
}

/// Trimming keeps a contiguous part `s[a..b]` of `s`: everything outside it is white
/// space, and when it is not empty it starts and ends with a character that is not.
pub proof fn lemma_trim_shape(s: Seq<char>) -> (ab: (int, int))
    ensures
        0 <= ab.0 <= ab.1 <= s.len(),
        trim(s) == s.subrange(ab.0, ab.1),
        forall|i: int|
            (0 <= i < ab.0 || ab.1 <= i < s.len()) ==> is_white_space(#[trigger] s[i]),
        ab.0 < ab.1 ==> !is_white_space(s[ab.0]) && !is_white_space(s[ab.1 - 1]),
{
    let a = lemma_trim_start_shape(s);
    let u = s.skip(a);
    let b1 = lemma_trim_end_shape(u);
    assert(u.take(b1) =~= s.subrange(a, a + b1));
    assert forall|i: int| a + b1 <= i < s.len() implies is_white_space(#[trigger] s[i]) by {
        assert(s[i] == u[i - a]);
    }
    if a < s.len() {
        assert(u[0] == s[a]);
        if b1 == 0 {
            assert(is_white_space(u[0]));
        }
        assert(s[a + b1 - 1] == u[b1 - 1]);
    }
    (a, a + b1)
}

/// Removes leading and trailing white space.
pub fn trim_str(s: &str) -> (r: String)
    ensures
        r@ == trim(s@),
{
    let n = s.unicode_len();
    let mut a: usize = 0;
    assert(s@.skip(0) =~= s@);
    while a < n && char_is_white_space(s.get_char(a))
        invariant
            n == s@.len(),
            a <= n,
            trim_start(s@) == trim_start(s@.skip(a as int)),
        decreases n - a,
    {
        assert(s@.skip(a as int).drop_first() =~= s@.skip(a + 1));
        a = a + 1;
    }
    assert(trim_start(s@.skip(a as int)) == s@.skip(a as int));
    assert(s@.skip(a as int) =~= s@.subrange(a as int, n as int));
    let mut b: usize = n;
    while b > a && char_is_white_space(s.get_char(b - 1))
        invariant
            n == s@.len(),
            a <= b <= n,
            trim_start(s@) == s@.subrange(a as int, n as int),
            trim_end(s@.subrange(a as int, n as int)) == trim_end(s@.subrange(a as int, b as int)),
        decreases b - a,
    {
        assert(s@.subrange(a as int, b as int).drop_last() =~= s@.subrange(a as int, b - 1));
        b = b - 1;
    }
    assert(trim_end(s@.subrange(a as int, b as int)) == s@.subrange(a as int, b as int));
    String::from_str(s.substring_char(a, b))
}

/// Number of characters before the first line feed of `s` (all of `s` when it has none).
pub open spec fn line_len(s: Seq<char>) -> nat
    decreases s.len(),
{
    if s.len() == 0 || s[0] == '\n' {
        0
    } else {
        1 + line_len(s.drop_first())
    }
}

/// The first line of `s`: what comes before its first line feed.
pub open spec fn first_line(s: Seq<char>) -> Seq<char> {
    s.take(line_len(s) as int)
}

/// What follows the first line feed of `s`.
pub open spec fn after_first_line(s: Seq<char>) -> Seq<char> {
    s.skip(line_len(s) + 1int)
}

/// The first line is never longer than the text; it is shorter exactly when a line feed
/// ends it.
pub proof fn lemma_line_len(s: Seq<char>)
    ensures
        line_len(s) <= s.len(),
        line_len(s) < s.len() <==> s.contains('\n'),
        line_len(s) < s.len() ==> s[line_len(s) as int] == '\n',
        forall|j: int| 0 <= j < line_len(s) ==> s[j] != '\n',
    decreases s.len(),
{
    if s.len() > 0 && s[0] != '\n' {
        let t = s.drop_first();
        lemma_line_len(t);
        assert forall|j: int| 0 <= j < line_len(s) implies s[j] != '\n' by {
            if j > 0 {
                assert(s[j] == t[j - 1]);
            }
        }
        if s.contains('\n') {
            let k = choose|k: int| 0 <= k < s.len() && s[k] == '\n';
            assert(t[k - 1] == '\n');
        }
        if t.contains('\n') {
            let k = choose|k: int| 0 <= k < t.len() && t[k] == '\n';
            assert(s[k + 1] == '\n');
        }
    } else if s.len() > 0 {
        assert(s[0] == '\n');
    }
}

/// Position of the first line feed at or after `from` (the length of `s` when there is none).
pub fn line_end(s: &str, from: usize) -> (r: usize)
    requires
        from <= s@.len(),
    ensures
        r == from + line_len(s@.skip(from as int)),
{
    let n = s.unicode_len();
    let mut i: usize = from;
    while i < n && s.get_char(i) != '\n'
        invariant
            n == s@.len(),
            from <= i <= n,
            from + line_len(s@.skip(from as int)) == i + line_len(s@.skip(i as int)),
        decreases n - i,
    {
        assert(s@.skip(i as int).drop_first() =~= s@.skip(i + 1));
        i = i + 1;
    }
    i
}

} // verus!
