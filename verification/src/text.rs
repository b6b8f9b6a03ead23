use vstd::prelude::*;

verus! {

/// Whether `c` is an ASCII decimal digit.
pub open spec fn is_digit(c: char) -> bool {
    '0' as int <= c as int <= '9' as int
}

/// Numeric value of a decimal digit character.
pub open spec fn digit_val(c: char) -> int {
    c as int - '0' as int
}

/// The decimal digit character for `d` in `[0, 9]`.
pub open spec fn digit_char(d: int) -> char {
    if d == 0 {
        '0'
    } else if d == 1 {
        '1'
    } else if d == 2 {
        '2'
    } else if d == 3 {
        '3'
    } else if d == 4 {
        '4'
    } else if d == 5 {
        '5'
    } else if d == 6 {
        '6'
    } else if d == 7 {
        '7'
    } else if d == 8 {
        '8'
    } else {
        '9'
    }
}

/// Every character of `s` is a decimal digit.
pub open spec fn all_digits(s: Seq<char>) -> bool {
    forall|i: int| 0 <= i < s.len() ==> is_digit(#[trigger] s[i])
}

/// Value of a sequence of decimal digits, most significant first.
pub open spec fn dec_val(s: Seq<char>) -> int
    decreases s.len(),
{
    if s.len() == 0 {
        0
    } else {
        dec_val(s.drop_last()) * 10 + digit_val(s.last())
    }
}

/// Decimal rendering of `n >= 0`: no sign, no padding, no leading zeros.
pub open spec fn dec_digits(n: int) -> Seq<char>
    decreases n,
{
    if n < 10 {
        seq![digit_char(n)]
    } else {
        dec_digits(n / 10).push(digit_char(n % 10))
    }
}

/// The numeral prefix of a token: a single leading `+` sign is tolerated,
/// as the integer parser of the original text format allows one.
pub open spec fn token_body(t: Seq<char>) -> Seq<char> {
    if t.len() > 0 && t[0] == '+' {
        t.drop_first()
    } else {
        t
    }
}

/// Whether `t` parses as an unsigned 8-bit integer: an optional `+` sign,
/// then at least one decimal digit, with a value of at most 255.
pub open spec fn is_u8_token(t: Seq<char>) -> bool {
    &&& token_body(t).len() > 0
    &&& all_digits(token_body(t))
    &&& dec_val(token_body(t)) <= 255
}

/// The value a token parses to (meaningful when `is_u8_token(t)`).
pub open spec fn token_u8(t: Seq<char>) -> int {
    dec_val(token_body(t))
}

/// Whether `c` separates tokens: always `.`, and also `/` unless splitting
/// a mask, which knows only dots.
pub open spec fn is_sep(c: char, dots_only: bool) -> bool {
    c == '.' || (!dots_only && c == '/')
}

/// The tokens of `s` between separator characters, in order. Splitting never
/// yields an empty sequence: an empty input holds one empty token, and each
/// separator ends one token and starts the next.
pub open spec fn split_chunks(s: Seq<char>, dots_only: bool) -> Seq<Seq<char>>
    decreases s.len(),
{
    if s.len() == 0 {
        seq![Seq::<char>::empty()]
    } else if is_sep(s[0], dots_only) {
        seq![Seq::<char>::empty()] + split_chunks(s.drop_first(), dots_only)
    } else {
        let rest = split_chunks(s.drop_first(), dots_only);
        seq![seq![s[0]] + rest[0]] + rest.drop_first()
    }
}

pub proof fn lemma_split_chunks_len(s: Seq<char>, dots_only: bool)
    ensures
        split_chunks(s, dots_only).len() >= 1,
    decreases s.len(),
{
    if s.len() > 0 {
        lemma_split_chunks_len(s.drop_first(), dots_only);
    }
}

/// A string without separators is a single token.
pub proof fn lemma_split_chunks_no_sep(s: Seq<char>, dots_only: bool)
    requires
        forall|i: int| 0 <= i < s.len() ==> !is_sep(#[trigger] s[i], dots_only),
    ensures
        split_chunks(s, dots_only) == seq![s],
    decreases s.len(),
{
    if s.len() == 0 {
        assert(s =~= Seq::<char>::empty());
    } else {
        lemma_split_chunks_no_sep(s.drop_first(), dots_only);
        lemma_split_chunks_len(s.drop_first(), dots_only);
        assert(seq![s.drop_first()].drop_first() =~= Seq::<Seq<char>>::empty());
        assert(seq![s[0]] + s.drop_first() =~= s);
        assert(split_chunks(s, dots_only) =~= seq![s]);
    }
}

/// Splitting at the first separator: the part before it is the first token,
/// and the rest splits on its own.
pub proof fn lemma_split_chunks_at_sep(a: Seq<char>, c: char, b: Seq<char>, dots_only: bool)
    requires
        forall|i: int| 0 <= i < a.len() ==> !is_sep(#[trigger] a[i], dots_only),
        is_sep(c, dots_only),
    ensures
        split_chunks(a + seq![c] + b, dots_only) == seq![a] + split_chunks(b, dots_only),
    decreases a.len(),
{
    let s = a + seq![c] + b;
    if a.len() == 0 {
        assert(s =~= seq![c] + b);
        assert(s[0] == c);
        assert(s.drop_first() =~= b);
        assert(a =~= Seq::<char>::empty());
        assert(split_chunks(s, dots_only) =~= seq![a] + split_chunks(b, dots_only));
    } else {
        lemma_split_chunks_at_sep(a.drop_first(), c, b, dots_only);
        assert(s[0] == a[0]);
        assert(!is_sep(s[0], dots_only));
        assert(s.drop_first() =~= a.drop_first() + seq![c] + b);
        let rest = split_chunks(s.drop_first(), dots_only);
        assert(rest == seq![a.drop_first()] + split_chunks(b, dots_only));
        lemma_split_chunks_len(b, dots_only);
        assert(rest[0] == a.drop_first());
        assert(seq![s[0]] + rest[0] =~= a);
        assert(rest.drop_first() =~= split_chunks(b, dots_only));
        assert(split_chunks(s, dots_only) =~= seq![a] + split_chunks(b, dots_only));
    }
}

pub proof fn lemma_dec_val_nonneg(s: Seq<char>)
    requires
        all_digits(s),
    ensures
        dec_val(s) >= 0,
    decreases s.len(),
{
    if s.len() > 0 {
        assert(all_digits(s.drop_last()));
        lemma_dec_val_nonneg(s.drop_last());
        assert(digit_val(s.last()) >= 0);
    }
}

/// Consuming one more digit multiplies the value seen so far by ten.
pub proof fn lemma_dec_val_step(s: Seq<char>, j: int)
    requires
        0 <= j < s.len(),
    ensures
        dec_val(s.take(j + 1)) == dec_val(s.take(j)) * 10 + digit_val(s[j]),
{
    assert(s.take(j + 1).drop_last() =~= s.take(j));
    assert(s.take(j + 1).last() == s[j]);
}

/// A digit prefix never exceeds the value of the whole numeral.
pub proof fn lemma_dec_val_prefix_le(s: Seq<char>, j: int)
    requires
        all_digits(s),
        0 <= j <= s.len(),
    ensures
        dec_val(s.take(j)) <= dec_val(s),
    decreases s.len() - j,
{
    if j == s.len() {
        assert(s.take(j) =~= s);
    } else {
        lemma_dec_val_step(s, j);
        assert(all_digits(s.take(j)));
        lemma_dec_val_nonneg(s.take(j));
        assert(dec_val(s.take(j)) <= dec_val(s.take(j + 1)));
        lemma_dec_val_prefix_le(s, j + 1);
    }
}

fn is_digit_char(c: char) -> (r: bool)
    ensures
        r == is_digit(c),
{
    (c as u32) >= ('0' as u32) && (c as u32) <= ('9' as u32)
}

fn digit_value(c: char) -> (d: u16)
    requires
        is_digit(c),
    ensures
        d as int == digit_val(c),
        d <= 9,
{
    ((c as u32) - ('0' as u32)) as u16
}

fn is_sep_char(c: char, dots_only: bool) -> (r: bool)
    ensures
        r == is_sep(c, dots_only),
{
    c == '.' || (!dots_only && c == '/')
}

/// Index of the first separator at or after `from`, or the length of `t`
/// when no separator follows.
fn scan_to_sep(t: &str, from: usize, dots_only: bool) -> (end: usize)
    requires
        from <= t@.len(),
    ensures
        from <= end <= t@.len(),
        forall|i: int| from <= i < end ==> !is_sep(#[trigger] t@[i], dots_only),
        end < t@.len() ==> is_sep(t@[end as int], dots_only),
{
    let n = t.unicode_len();
    let mut i = from;
    while i < n
        invariant
            from <= i <= n,
            n == t@.len(),
            forall|j: int| from <= j < i ==> !is_sep(#[trigger] t@[j], dots_only),
        decreases n - i,
    {
        if is_sep_char(t.get_char(i), dots_only) {
            return i;
        }
        i = i + 1;
    }
    i
}

/// Splits `t` into its tokens, exactly as `split_chunks` describes.
pub fn split_str<'a>(t: &'a str, dots_only: bool) -> (chunks: Vec<&'a str>)
    ensures
        chunks.deep_view() == split_chunks(t@, dots_only),
{
    let n = t.unicode_len();
    let mut chunks: Vec<&'a str> = Vec::new();
    let mut start: usize = 0;
    assert(t@.subrange(0, n as int) =~= t@);
    assert(chunks.deep_view() =~= Seq::<Seq<char>>::empty());
    loop
        invariant_except_break
            split_chunks(t@, dots_only) == chunks.deep_view() + split_chunks(
                t@.subrange(start as int, n as int),
                dots_only,
            ),
        invariant
            start <= n,
            n == t@.len(),
        ensures
            chunks.deep_view() == split_chunks(t@, dots_only),
        decreases n - start,
    {
        let end = scan_to_sep(t, start, dots_only);
        let tok = t.substring_char(start, end);
        let ghost prev = chunks.deep_view();
        chunks.push(tok);
        proof {
            assert(chunks.deep_view() =~= prev.push(tok@));
            let rem = t@.subrange(start as int, n as int);
            let rem_a = t@.subrange(start as int, end as int);
            assert(tok@ == rem_a);
            if end < n {
                let rem_b = t@.subrange(end as int + 1, n as int);
                assert(rem =~= rem_a + seq![t@[end as int]] + rem_b);
                assert(forall|i: int|
                    0 <= i < rem_a.len() ==> !is_sep(#[trigger] rem_a[i], dots_only));
                lemma_split_chunks_at_sep(rem_a, t@[end as int], rem_b, dots_only);
                assert(prev.push(rem_a) + split_chunks(rem_b, dots_only) =~= prev + (seq![rem_a]
                    + split_chunks(rem_b, dots_only)));
            } else {
                assert(rem =~= rem_a);
                assert(forall|i: int| 0 <= i < rem.len() ==> !is_sep(#[trigger] rem[i], dots_only));
                lemma_split_chunks_no_sep(rem, dots_only);
                assert(prev.push(rem) =~= prev + seq![rem]);
            }
        }
        if end == n {
            break ;
        }
        start = end + 1;
    }
    chunks
}

/// Parses a token as an unsigned 8-bit integer, accepting exactly the
/// numerals `is_u8_token` describes and returning their value.
pub fn parse_u8_token(t: &str) -> (r: Option<u8>)
    ensures
        r is Some <==> is_u8_token(t@),
        r is Some ==> r->0 as int == token_u8(t@),
{
    let n = t.unicode_len();
    let mut i: usize = 0;
    if n > 0 && t.get_char(0) == '+' {
        i = 1;
    }
    if i == n {
        assert(token_body(t@).len() == 0);
        return None;
    }
    let start = i;
    let ghost body = token_body(t@);
    assert(body =~= t@.subrange(start as int, n as int));
    let mut acc: u16 = 0;
    while i < n
        invariant
            start <= i <= n,
            start < n,
            n == t@.len(),
            body == token_body(t@),
            body =~= t@.subrange(start as int, n as int),
            all_digits(body.take(i - start)),
            acc as int == dec_val(body.take(i - start)),
            acc <= 255,
        decreases n - i,
    {
        let c = t.get_char(i);
        assert(body[i - start] == c);
        if !is_digit_char(c) {
            assert(!all_digits(body));
            return None;
        }
        let d = digit_value(c);
        proof {
            lemma_dec_val_step(body, i - start);
        }
        if acc * 10 + d > 255 {
            proof {
                if all_digits(body) {
                    lemma_dec_val_prefix_le(body, i - start + 1);
                }
            }
            return None;
        }
        acc = acc * 10 + d;
        i = i + 1;
    }
    assert(body.take(i - start) =~= body);
    Some(acc as u8)
}

pub proof fn lemma_digit_char_val(d: int)
    requires
        0 <= d < 10,
    ensures
        is_digit(digit_char(d)),
        digit_val(digit_char(d)) == d,
        !is_sep(digit_char(d), true),
        !is_sep(digit_char(d), false),
        digit_char(d) != '+',
{
}

/// A decimal rendering is one or more digits, so it holds no separator and
/// no sign.
pub proof fn lemma_dec_digits_shape(n: int)
    requires
        n >= 0,
    ensures
        dec_digits(n).len() >= 1,
        all_digits(dec_digits(n)),
    decreases n,
{
    if n < 10 {
        lemma_digit_char_val(n);
    } else {
        lemma_dec_digits_shape(n / 10);
        lemma_digit_char_val(n % 10);
        assert(all_digits(dec_digits(n))) by {
            let s = dec_digits(n);
            assert(forall|i: int| 0 <= i < s.len() - 1 ==> s[i] == dec_digits(n / 10)[i]);
            assert(s[s.len() - 1] == digit_char(n % 10));
        }
    }
}

/// Reading a decimal rendering back gives the value it renders.
pub proof fn lemma_dec_val_dec_digits(n: int)
    requires
        n >= 0,
    ensures
        dec_val(dec_digits(n)) == n,
    decreases n,
{
    if n < 10 {
        lemma_digit_char_val(n);
        let s = dec_digits(n);
        assert(s.drop_last() =~= Seq::<char>::empty());
        assert(dec_val(s) == dec_val(s.drop_last()) * 10 + digit_val(s.last()));
        assert(dec_val(Seq::<char>::empty()) == 0);
        assert(s.last() == digit_char(n));
    } else {
        lemma_dec_val_dec_digits(n / 10);
        lemma_digit_char_val(n % 10);
        let s = dec_digits(n);
        assert(s.drop_last() =~= dec_digits(n / 10));
        assert(dec_val(s) == dec_val(s.drop_last()) * 10 + digit_val(s.last()));
        assert(s.last() == digit_char(n % 10));
    }
}

/// The decimal rendering of a byte value is a numeral that parses back to it.
pub proof fn lemma_dec_digits_u8_token(n: int)
    requires
        0 <= n <= 255,
    ensures
        is_u8_token(dec_digits(n)),
        token_u8(dec_digits(n)) == n,
        forall|i: int|
            0 <= i < dec_digits(n).len() ==> !is_sep(#[trigger] dec_digits(n)[i], true) && !is_sep(
                dec_digits(n)[i],
                false,
            ),
    decreases n,
{
    lemma_dec_digits_shape(n);
    lemma_dec_val_dec_digits(n);
    assert(is_digit(dec_digits(n)[0]));
    assert(dec_digits(n)[0] != '+');
    assert(token_body(dec_digits(n)) == dec_digits(n));
}

fn digit_str(d: u8) -> (r: &'static str)
    requires
        d < 10,
    ensures
        r@ == seq![digit_char(d as int)],
{
    proof {
        reveal_strlit("0");
        reveal_strlit("1");
        reveal_strlit("2");
        reveal_strlit("3");
        reveal_strlit("4");
        reveal_strlit("5");
        reveal_strlit("6");
        reveal_strlit("7");
        reveal_strlit("8");
        reveal_strlit("9");
    }
    let r = if d == 0 {
        "0"
    } else if d == 1 {
        "1"
    } else if d == 2 {
        "2"
    } else if d == 3 {
        "3"
    } else if d == 4 {
        "4"
    } else if d == 5 {
        "5"
    } else if d == 6 {
        "6"
    } else if d == 7 {
        "7"
    } else if d == 8 {
        "8"
    } else {
        "9"
    };
    assert(r@ =~= seq![digit_char(d as int)]);
    r
}

/// Appends the decimal rendering of `n` to `out`.
pub fn push_u8_dec(out: &mut String, n: u8)
    ensures
        final (out)@ == old(out)@ + dec_digits(n as int),
{
    let ghost base = out@;
    if n >= 100 {
        out.append(digit_str(n / 100));
    }
    if n >= 10 {
        out.append(digit_str(n / 10 % 10));
    }
    out.append(digit_str(n % 10));
    proof {
        let v = n as int;
        if v < 10 {
            assert(v % 10 == v);
            assert(base + seq![digit_char(v)] =~= base + dec_digits(v));
        } else if v < 100 {
            assert(dec_digits(v / 10) == seq![digit_char(v / 10)]);
            assert(v / 10 % 10 == v / 10);
            assert(base + seq![digit_char(v / 10)] + seq![digit_char(v % 10)] =~= base + dec_digits(
                v,
            ));
        } else {
            assert(v / 10 / 10 == v / 100) by (nonlinear_arith);
            assert(v / 100 < 10);
            assert(dec_digits(v / 100) == seq![digit_char(v / 100)]);
            assert(dec_digits(v / 10) == dec_digits(v / 10 / 10).push(digit_char(v / 10 % 10)));
            assert(dec_digits(v / 10) == seq![digit_char(v / 100)].push(digit_char(v / 10 % 10)));
            assert(base + seq![digit_char(v / 100)] + seq![digit_char(v / 10 % 10)] + seq![
                digit_char(v % 10),
            ] =~= base + dec_digits(v));
        }
    }
}

} // verus!
