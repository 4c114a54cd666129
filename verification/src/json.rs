//! Token-level JSON reading and writing on character sequences: string
//! escaping, numbers, literals and whitespace, with the lemmas that make the
//! sidecar round-trip proof go through.

use vstd::prelude::*;

verus! {

/// JSON whitespace.
pub open spec fn is_ws(c: char) -> bool {
    c == ' ' || c == '\n' || c == '\r' || c == '\t'
}

/// A decimal digit.
pub open spec fn is_digit(c: char) -> bool {
    '0' <= c && c <= '9'
}

/// The numeric value of a decimal digit.
pub open spec fn digit_val(c: char) -> nat
    recommends
        is_digit(c),
{
    ((c as u32) - 48) as nat
}

/// The character of a decimal digit value.
pub open spec fn digit_char(n: nat) -> char
    recommends
        n < 10,
{
    ((48 + n) as u8) as char
}

/// A hexadecimal digit.
pub open spec fn is_hex(c: char) -> bool {
    is_digit(c) || ('a' <= c && c <= 'f') || ('A' <= c && c <= 'F')
}

/// The numeric value of a hexadecimal digit.
pub open spec fn hex_val(c: char) -> nat
    recommends
        is_hex(c),
{
    if is_digit(c) {
        digit_val(c)
    } else if 'a' <= c && c <= 'f' {
        ((c as u32) - 87) as nat
    } else {
        ((c as u32) - 55) as nat
    }
}

/// The lower-case character of a hexadecimal digit value.
pub open spec fn hex_char(n: nat) -> char
    recommends
        n < 16,
{
    if n < 10 {
        digit_char(n)
    } else {
        ((87 + n) as u8) as char
    }
}

/// A character that a JSON string holds verbatim: not a quote, not a
/// backslash, not a control character.
pub open spec fn plain_char(c: char) -> bool {
    c != '"' && c != '\\' && (c as u32) >= 32
}

/// The escape of one character inside a JSON string.
pub open spec fn esc_char(c: char) -> Seq<char> {
    if c == '"' {
        seq!['\\', '"']
    } else if c == '\\' {
        seq!['\\', '\\']
    } else if c == '\n' {
        seq!['\\', 'n']
    } else if c == '\r' {
        seq!['\\', 'r']
    } else if c == '\t' {
        seq!['\\', 't']
    } else if (c as u32) < 32 {
        seq!['\\', 'u', '0', '0', hex_char(((c as u32) / 16) as nat), hex_char(
            ((c as u32) % 16) as nat,
        )]
    } else {
        seq![c]
    }
}

/// The escaped body of a JSON string.
pub open spec fn esc_seq(s: Seq<char>) -> Seq<char>
    decreases s.len(),
{
    if s.len() == 0 {
        Seq::empty()
    } else {
        esc_char(s[0]) + esc_seq(s.drop_first())
    }
}

/// A whole JSON string: quote, escaped body, quote.
pub open spec fn emit_string(s: Seq<char>) -> Seq<char> {
    seq!['"'] + esc_seq(s) + seq!['"']
}

/// The decimal digits of `n`, most significant first.
pub open spec fn emit_u64(n: nat) -> Seq<char>
    decreases n,
{
    if n < 10 {
        seq![digit_char(n)]
    } else {
        emit_u64(n / 10) + seq![digit_char(n % 10)]
    }
}

/// A possibly signed integer.
pub open spec fn emit_int(v: int) -> Seq<char> {
    if v < 0 {
        seq!['-'] + emit_u64((-v) as nat)
    } else {
        emit_u64(v as nat)
    }
}

/// A fixed-point number with two decimals, holding `n` hundredths.
pub open spec fn emit_hundredths(n: nat) -> Seq<char> {
    emit_u64(n / 100) + seq!['.', digit_char((n % 100) / 10), digit_char((n % 100) % 10)]
}

/// The characters of the `true` and `false` literals.
pub open spec fn bool_chars(b: bool) -> Seq<char> {
    if b {
        seq!['t', 'r', 'u', 'e']
    } else {
        seq!['f', 'a', 'l', 's', 'e']
    }
}

/// The characters of the `null` literal.
pub open spec fn null_chars() -> Seq<char> {
    seq!['n', 'u', 'l', 'l']
}

/// Appending a character to a string appends its escape to the body.
pub proof fn lemma_esc_snoc(s: Seq<char>, c: char)
    ensures
        esc_seq(s.push(c)) == esc_seq(s) + esc_char(c),
    decreases s.len(),
{
    if s.len() == 0 {
        assert(s.push(c)[0] == c);
        assert(s.push(c).drop_first() =~= Seq::<char>::empty());
        assert(esc_seq(s.push(c)) =~= esc_char(c) + esc_seq(Seq::<char>::empty()));
        assert(esc_char(c) + Seq::<char>::empty() =~= esc_char(c));
        assert(esc_seq(s) + esc_char(c) =~= esc_char(c));
    } else {
        assert(s.push(c)[0] == s[0]);
        assert(s.push(c).drop_first() =~= s.drop_first().push(c));
        lemma_esc_snoc(s.drop_first(), c);
        assert(esc_seq(s.push(c)) =~= esc_seq(s) + esc_char(c));
    }
}

/// Emits one digit.
fn emit_digit(out: &mut Vec<char>, d: u64)
    requires
        d < 10,
    ensures
        final(out)@ == old(out)@.push(digit_char(d as nat)),
{
    out.push(((48 + d as u32) as u8) as char);
}

/// Emits the decimal digits of `n`.
pub fn emit_u64_chars(out: &mut Vec<char>, n: u64)
    ensures
        final(out)@ == old(out)@ + emit_u64(n as nat),
    decreases n,
{
    if n < 10 {
        emit_digit(out, n);
        assert(out@ =~= old(out)@ + emit_u64(n as nat));
    } else {
        proof {
            vstd::arithmetic::div_mod::lemma_div_decreases(n as int, 10);
        }
        emit_u64_chars(out, n / 10);
        emit_digit(out, n % 10);
        assert(out@ =~= old(out)@ + emit_u64(n as nat));
    }
}

/// Emits a signed integer.
pub fn emit_i32_chars(out: &mut Vec<char>, v: i32)
    ensures
        final(out)@ == old(out)@ + emit_int(v as int),
{
    if v < 0 {
        out.push('-');
        let m: u64 = if v == i32::MIN {
            2147483648u64
        } else {
            (-v) as u64
        };
        emit_u64_chars(out, m);
        assert(out@ =~= old(out)@ + emit_int(v as int));
    } else {
        emit_u64_chars(out, v as u64);
    }
}

/// Emits `n` hundredths as a number with two decimals.
pub fn emit_hundredths_chars(out: &mut Vec<char>, n: u64)
    ensures
        final(out)@ == old(out)@ + emit_hundredths(n as nat),
{
    emit_u64_chars(out, n / 100);
    out.push('.');
    emit_digit(out, (n % 100) / 10);
    emit_digit(out, (n % 100) % 10);
    assert(out@ =~= old(out)@ + emit_hundredths(n as nat));
}

/// Emits the escape of one character.
fn emit_esc_char(out: &mut Vec<char>, c: char)
    ensures
        final(out)@ == old(out)@ + esc_char(c),
{
    if c == '"' {
        out.push('\\');
        out.push('"');
    } else if c == '\\' {
        out.push('\\');
        out.push('\\');
    } else if c == '\n' {
        out.push('\\');
        out.push('n');
    } else if c == '\r' {
        out.push('\\');
        out.push('r');
    } else if c == '\t' {
        out.push('\\');
        out.push('t');
    } else if (c as u32) < 32 {
        out.push('\\');
        out.push('u');
        out.push('0');
        out.push('0');
        let hi: u32 = (c as u32) / 16;
        let lo: u32 = (c as u32) % 16;
        if hi < 10 {
            out.push(((48 + hi) as u8) as char);
        } else {
            out.push(((87 + hi) as u8) as char);
        }
        if lo < 10 {
            out.push(((48 + lo) as u8) as char);
        } else {
            out.push(((87 + lo) as u8) as char);
        }
    } else {
        out.push(c);
    }
    assert(out@ =~= old(out)@ + esc_char(c));
}

/// Emits a whole JSON string.
pub fn emit_string_chars(out: &mut Vec<char>, s: &str)
    ensures
        final(out)@ == old(out)@ + emit_string(s@),
{
    out.push('"');
    let n: usize = s.unicode_len();
    let mut i: usize = 0;
    proof {
        assert(esc_seq(s@.take(0)) =~= Seq::<char>::empty());
        assert(out@ =~= old(out)@ + seq!['"'] + esc_seq(s@.take(0)));
    }
    while i < n
        invariant
            n == s@.len(),
            i <= n,
            out@ == old(out)@ + seq!['"'] + esc_seq(s@.take(i as int)),
        decreases n - i,
    {
        emit_esc_char(out, s.get_char(i));
        proof {
            assert(s@.take(i + 1) =~= s@.take(i as int).push(s@[i as int]));
            lemma_esc_snoc(s@.take(i as int), s@[i as int]);
            assert(out@ =~= old(out)@ + seq!['"'] + esc_seq(s@.take(i + 1)));
        }
        i = i + 1;
    }
    out.push('"');
    proof {
        assert(s@.take(n as int) =~= s@);
        assert(out@ =~= old(out)@ + emit_string(s@));
    }
}

/// Drops leading JSON whitespace.
pub open spec fn skip_ws(s: Seq<char>) -> Seq<char>
    decreases s.len(),
{
    if s.len() > 0 && is_ws(s[0]) {
        skip_ws(s.drop_first())
    } else {
        s
    }
}

/// Consumes an exact literal, returning the rest.
pub open spec fn parse_lit(s: Seq<char>, lit: Seq<char>) -> Option<Seq<char>> {
    if lit.len() <= s.len() && s.take(lit.len() as int) == lit {
        Some(s.skip(lit.len() as int))
    } else {
        None
    }
}

/// The character named by a single-character escape.
pub open spec fn unesc_char(e: char) -> char {
    if e == '"' {
        '"'
    } else if e == '\\' {
        '\\'
    } else if e == '/' {
        '/'
    } else if e == 'n' {
        '\n'
    } else if e == 'r' {
        '\r'
    } else {
        '\t'
    }
}

/// Parses the body of a JSON string after the opening quote, up to and over
/// the closing quote.  Raw control characters are rejected; `\uXXXX` escapes
/// are accepted for codes below 128.
pub open spec fn parse_str_body(s: Seq<char>) -> Option<(Seq<char>, Seq<char>)>
    decreases s.len(),
{
    if s.len() == 0 {
        None
    } else if s[0] == '"' {
        Some((Seq::empty(), s.drop_first()))
    } else if s[0] == '\\' {
        if s.len() < 2 {
            None
        } else {
            let e = s[1];
            if e == '"' || e == '\\' || e == '/' || e == 'n' || e == 'r' || e == 't' {
                match parse_str_body(s.skip(2)) {
                    Some((t, r)) => Some((seq![unesc_char(e)] + t, r)),
                    None => None,
                }
            } else if e == 'u' {
                if s.len() < 6 {
                    None
                } else if is_hex(s[2]) && is_hex(s[3]) && is_hex(s[4]) && is_hex(s[5]) {
                    let code = hex_val(s[2]) * 4096 + hex_val(s[3]) * 256 + hex_val(s[4]) * 16
                        + hex_val(s[5]);
                    if code < 128 {
                        match parse_str_body(s.skip(6)) {
                            Some((t, r)) => Some((seq![(code as u8) as char] + t, r)),
                            None => None,
                        }
                    } else {
                        None
                    }
                } else {
                    None
                }
            } else {
                None
            }
        }
    } else if (s[0] as u32) < 32 {
        None
    } else {
        match parse_str_body(s.drop_first()) {
            Some((t, r)) => Some((seq![s[0]] + t, r)),
            None => None,
        }
    }
}

/// Parses a whole JSON string, quotes included.
pub open spec fn parse_string(s: Seq<char>) -> Option<(Seq<char>, Seq<char>)> {
    if s.len() > 0 && s[0] == '"' {
        parse_str_body(s.drop_first())
    } else {
        None
    }
}

/// Folds leading decimal digits into `acc`.
pub open spec fn parse_digits(s: Seq<char>, acc: nat) -> (nat, Seq<char>)
    decreases s.len(),
{
    if s.len() > 0 && is_digit(s[0]) {
        parse_digits(s.drop_first(), acc * 10 + digit_val(s[0]))
    } else {
        (acc, s)
    }
}

/// Parses an unsigned decimal number that fits a `u64`.
pub open spec fn parse_u64(s: Seq<char>) -> Option<(nat, Seq<char>)> {
    if s.len() > 0 && is_digit(s[0]) {
        let (n, r) = parse_digits(s, 0);
        if n <= u64::MAX {
            Some((n, r))
        } else {
            None
        }
    } else {
        None
    }
}

/// Parses a possibly signed decimal number that fits an `i32`.
pub open spec fn parse_i32(s: Seq<char>) -> Option<(int, Seq<char>)> {
    if s.len() > 0 && s[0] == '-' {
        match parse_u64(s.drop_first()) {
            Some((n, r)) => if n <= 0x8000_0000 {
                Some((-(n as int), r))
            } else {
                None
            },
            None => None,
        }
    } else {
        match parse_u64(s) {
            Some((n, r)) => if n <= 0x7fff_ffff {
                Some((n as int, r))
            } else {
                None
            },
            None => None,
        }
    }
}

/// Parses a decimal number with up to two decimals into hundredths: an
/// integer, one decimal, or two; more decimals are rejected as beyond the
/// format's precision.
pub open spec fn parse_hundredths(s: Seq<char>) -> Option<(nat, Seq<char>)> {
    match parse_u64(s) {
        Some((i, r)) => if r.len() >= 2 && r[0] == '.' && is_digit(r[1]) {
            if r.len() >= 3 && is_digit(r[2]) {
                if r.len() > 3 && is_digit(r[3]) {
                    None
                } else {
                    let v = i * 100 + digit_val(r[1]) * 10 + digit_val(r[2]);
                    if v <= u64::MAX {
                        Some((v, r.skip(3)))
                    } else {
                        None
                    }
                }
            } else {
                let v = i * 100 + digit_val(r[1]) * 10;
                if v <= u64::MAX {
                    Some((v, r.skip(2)))
                } else {
                    None
                }
            }
        } else if r.len() >= 1 && r[0] == '.' {
            None
        } else {
            if i * 100 <= u64::MAX {
                Some((i * 100, r))
            } else {
                None
            }
        },
        None => None,
    }
}

/// Prefixes already-parsed characters onto a string-body result.
pub open spec fn prepend_parsed(a: Seq<char>, r: Option<(Seq<char>, Seq<char>)>) -> Option<
    (Seq<char>, Seq<char>),
> {
    match r {
        Some(p) => Some((a + p.0, p.1)),
        None => None,
    }
}

/// Whether `c` is JSON whitespace.
pub fn is_ws_exec(c: char) -> (r: bool)
    ensures
        r == is_ws(c),
{
    c == ' ' || c == '\n' || c == '\r' || c == '\t'
}

/// Whether `c` is a decimal digit.
pub fn is_digit_exec(c: char) -> (r: bool)
    ensures
        r == is_digit(c),
{
    '0' <= c && c <= '9'
}

/// Skips whitespace from position `i`, returning the first position with
/// none left.
pub fn ws_exec(v: &Vec<char>, i: usize) -> (j: usize)
    requires
        i <= v@.len(),
    ensures
        i <= j <= v@.len(),
        skip_ws(v@.skip(i as int)) == v@.skip(j as int),
{
    let mut j: usize = i;
    while j < v.len() && is_ws_exec(v[j])
        invariant
            i <= j <= v@.len(),
            skip_ws(v@.skip(i as int)) == skip_ws(v@.skip(j as int)),
        decreases v@.len() - j,
    {
        proof {
            assert(v@.skip(j as int)[0] == v@[j as int]);
            assert(v@.skip(j as int).drop_first() =~= v@.skip(j + 1));
        }
        j = j + 1;
    }
    proof {
        if j < v@.len() {
            assert(v@.skip(j as int)[0] == v@[j as int]);
        }
        assert(skip_ws(v@.skip(j as int)) == v@.skip(j as int));
    }
    j
}

/// Consumes the characters of `lit` at position `i`.
pub fn parse_lit_exec(v: &Vec<char>, i: usize, lit: &str) -> (r: Option<usize>)
    requires
        i <= v@.len(),
    ensures
        match r {
            Some(j) => i <= j <= v@.len() && parse_lit(v@.skip(i as int), lit@) == Some(
                v@.skip(j as int),
            ),
            None => parse_lit(v@.skip(i as int), lit@) is None,
        },
{
    let n: usize = lit.unicode_len();
    let vl: usize = v.len();
    if n > vl - i {
        return None;
    }
    let mut k: usize = 0;
    while k < n
        invariant
            n == lit@.len(),
            vl == v@.len(),
            i + n <= vl,
            k <= n,
            forall|m: int| 0 <= m < k ==> v@.skip(i as int)[m] == lit@[m],
        decreases n - k,
    {
        if v[i + k] != lit.get_char(k) {
            proof {
                let s = v@.skip(i as int);
                assert(s[k as int] == v@[i + k]);
                if parse_lit(s, lit@) is Some {
                    assert(s.take(n as int) == lit@);
                    assert(s.take(n as int)[k as int] == s[k as int]);
                }
            }
            return None;
        }
        proof {
            assert(v@.skip(i as int)[k as int] == v@[i + k]);
        }
        k = k + 1;
    }
    proof {
        let s = v@.skip(i as int);
        assert(s.take(n as int) =~= lit@);
        assert(s.skip(n as int) =~= v@.skip(i + n));
    }
    Some(i + n)
}

/// Parses a JSON string body from position `i` (the opening quote already
/// consumed), collecting the characters.
pub fn parse_str_body_exec(v: &Vec<char>, i: usize) -> (r: Option<(Vec<char>, usize)>)
    requires
        i <= v@.len(),
    ensures
        match r {
            Some(p) => i < p.1 <= v@.len() && parse_str_body(v@.skip(i as int)) == Some(
                (p.0@, v@.skip(p.1 as int)),
            ),
            None => parse_str_body(v@.skip(i as int)) is None,
        },
{
    let mut acc: Vec<char> = Vec::new();
    let mut cur: usize = i;
    loop
        invariant
            i <= cur <= v@.len(),
            prepend_parsed(acc@, parse_str_body(v@.skip(cur as int))) == parse_str_body(
                v@.skip(i as int),
            ),
        decreases v@.len() - cur,
    {
        let ghost s = v@.skip(cur as int);
        if cur >= v.len() {
            return None;
        }
        let c = v[cur];
        proof {
            assert(s[0] == v@[cur as int]);
        }
        if c == '"' {
            proof {
                assert(s.drop_first() =~= v@.skip(cur + 1));
                assert(acc@ + Seq::<char>::empty() =~= acc@);
            }
            return Some((acc, cur + 1));
        }
        if c == '\\' {
            if v.len() - cur < 2 {
                return None;
            }
            let e = v[cur + 1];
            proof {
                assert(s[1] == v@[cur + 1]);
            }
            if e == '"' || e == '\\' || e == '/' || e == 'n' || e == 'r' || e == 't' {
                let u = if e == '"' {
                    '"'
                } else if e == '\\' {
                    '\\'
                } else if e == '/' {
                    '/'
                } else if e == 'n' {
                    '\n'
                } else if e == 'r' {
                    '\r'
                } else {
                    '\t'
                };
                proof {
                    assert(s.skip(2) =~= v@.skip(cur + 2));
                    assert forall|t: Seq<char>| true implies acc@ + (seq![unesc_char(s[1])] + t)
                        =~= acc@.push(u) + t by {}
                }
                acc.push(u);
                cur = cur + 2;
            } else if e == 'u' {
                if v.len() - cur < 6 {
                    proof {
                        assert(s.len() < 6);
                    }
                    return None;
                }
                proof {
                    assert(s[2] == v@[cur + 2] && s[3] == v@[cur + 3] && s[4] == v@[cur + 4] && s[5]
                        == v@[cur + 5]);
                }
                let h2 = hex_val_exec(v[cur + 2]);
                let h3 = hex_val_exec(v[cur + 3]);
                let h4 = hex_val_exec(v[cur + 4]);
                let h5 = hex_val_exec(v[cur + 5]);
                match (h2, h3, h4, h5) {
                    (Some(a), Some(b), Some(cc), Some(d)) => {
                        let code: u32 = a as u32 * 4096 + b as u32 * 256 + cc as u32 * 16
                            + d as u32;
                        if code >= 128 {
                            return None;
                        }
                        let u = (code as u8) as char;
                        proof {
                            assert(s.skip(6) =~= v@.skip(cur + 6));
                            assert forall|t: Seq<char>| true implies acc@ + (seq![(
                            (hex_val(s[2]) * 4096 + hex_val(s[3]) * 256 + hex_val(s[4]) * 16
                                + hex_val(s[5])) as u8) as char] + t) =~= acc@.push(u) + t by {}
                        }
                        acc.push(u);
                        cur = cur + 6;
                    },
                    _ => {
                        return None;
                    },
                }
            } else {
                return None;
            }
        } else if (c as u32) < 32 {
            return None;
        } else {
            proof {
                assert(s.drop_first() =~= v@.skip(cur + 1));
                assert forall|t: Seq<char>| true implies acc@ + (seq![s[0]] + t) =~= acc@.push(c)
                    + t by {}
            }
            acc.push(c);
            cur = cur + 1;
        }
    }
}

/// The value of one hexadecimal digit character, if it is one.
pub fn hex_val_exec(c: char) -> (r: Option<u8>)
    ensures
        match r {
            Some(n) => is_hex(c) && n as nat == hex_val(c) && n < 16,
            None => !is_hex(c),
        },
{
    if '0' <= c && c <= '9' {
        Some(((c as u32) - 48) as u8)
    } else if 'a' <= c && c <= 'f' {
        Some(((c as u32) - 87) as u8)
    } else if 'A' <= c && c <= 'F' {
        Some(((c as u32) - 55) as u8)
    } else {
        None
    }
}

/// Parses a whole JSON string, quotes included, from position `i`.
pub fn parse_string_exec(v: &Vec<char>, i: usize) -> (r: Option<(String, usize)>)
    requires
        i <= v@.len(),
    ensures
        match r {
            Some(p) => i + 2 <= p.1 <= v@.len() && parse_string(v@.skip(i as int)) == Some(
                (p.0@, v@.skip(p.1 as int)),
            ),
            None => parse_string(v@.skip(i as int)) is None,
        },
{
    if i >= v.len() {
        return None;
    }
    proof {
        assert(v@.skip(i as int)[0] == v@[i as int]);
    }
    if v[i] != '"' {
        return None;
    }
    proof {
        assert(v@.skip(i as int).drop_first() =~= v@.skip(i + 1));
    }
    match parse_str_body_exec(v, i + 1) {
        Some((chars, j)) => Some((crate::text::chars_to_string(&chars), j)),
        None => None,
    }
}

/// Folds decimal digits from position `i`, tracking `u64` overflow.
///
/// Returns the end position, the folded value when it fits, and whether it
/// fits.
pub fn parse_digits_exec(v: &Vec<char>, i: usize) -> (r: (bool, u64, usize))
    requires
        i <= v@.len(),
    ensures
        ({
            let (n, rest) = parse_digits(v@.skip(i as int), 0);
            &&& i <= r.2 <= v@.len()
            &&& rest == v@.skip(r.2 as int)
            &&& r.0 ==> r.1 as nat == n
            &&& !r.0 ==> n > u64::MAX
        }),
{
    let mut ok: bool = true;
    let mut val: u64 = 0;
    let mut cur: usize = i;
    let ghost mut g: nat = 0nat;
    while cur < v.len() && is_digit_exec(v[cur])
        invariant
            i <= cur <= v@.len(),
            parse_digits(v@.skip(i as int), 0) == parse_digits(v@.skip(cur as int), g),
            ok ==> g == val as nat,
            !ok ==> g > u64::MAX,
        decreases v@.len() - cur,
    {
        let c = v[cur];
        let d: u64 = ((c as u32) - 48) as u64;
        proof {
            assert(v@.skip(cur as int)[0] == v@[cur as int]);
            assert(v@.skip(cur as int).drop_first() =~= v@.skip(cur + 1));
            assert(parse_digits(v@.skip(cur as int), g) == parse_digits(
                v@.skip(cur + 1),
                g * 10 + digit_val(c),
            ));
        }
        if ok {
            if val > (u64::MAX - d) / 10 {
                proof {
                    vstd::arithmetic::div_mod::lemma_fundamental_div_mod(
                        (u64::MAX - d) as int,
                        10,
                    );
                }
                ok = false;
            } else {
                proof {
                    vstd::arithmetic::div_mod::lemma_fundamental_div_mod(
                        (u64::MAX - d) as int,
                        10,
                    );
                }
                val = val * 10 + d;
            }
        } else {
            proof {
                assert(g * 10 + digit_val(c) >= g) by (nonlinear_arith);
            }
        }
        proof {
            g = g * 10 + digit_val(c);
        }
        cur = cur + 1;
    }
    proof {
        if cur < v@.len() {
            assert(v@.skip(cur as int)[0] == v@[cur as int]);
        }
        assert(parse_digits(v@.skip(cur as int), g) == (g, v@.skip(cur as int)));
    }
    (ok, val, cur)
}

/// Parses an unsigned decimal number from position `i`, as [`parse_u64`].
pub fn parse_u64_exec(v: &Vec<char>, i: usize) -> (r: Option<(u64, usize)>)
    requires
        i <= v@.len(),
    ensures
        match r {
            Some(p) => p.1 <= v@.len() && parse_u64(v@.skip(i as int)) == Some(
                (p.0 as nat, v@.skip(p.1 as int)),
            ),
            None => parse_u64(v@.skip(i as int)) is None,
        },
{
    if i >= v.len() {
        return None;
    }
    proof {
        assert(v@.skip(i as int)[0] == v@[i as int]);
    }
    if !is_digit_exec(v[i]) {
        return None;
    }
    let (ok, val, j) = parse_digits_exec(v, i);
    if ok {
        Some((val, j))
    } else {
        None
    }
}

/// Parses a possibly signed decimal number from position `i`, as
/// [`parse_i32`].
pub fn parse_i32_exec(v: &Vec<char>, i: usize) -> (r: Option<(i32, usize)>)
    requires
        i <= v@.len(),
    ensures
        match r {
            Some(p) => p.1 <= v@.len() && parse_i32(v@.skip(i as int)) == Some(
                (p.0 as int, v@.skip(p.1 as int)),
            ),
            None => parse_i32(v@.skip(i as int)) is None,
        },
{
    if i < v.len() && v[i] == '-' {
        proof {
            assert(v@.skip(i as int)[0] == v@[i as int]);
            assert(v@.skip(i as int).drop_first() =~= v@.skip(i + 1));
        }
        match parse_u64_exec(v, i + 1) {
            Some((n, j)) => {
                if n <= 0x8000_0000 {
                    let m: i32 = if n == 0x8000_0000 {
                        i32::MIN
                    } else {
                        -(n as i32)
                    };
                    Some((m, j))
                } else {
                    None
                }
            },
            None => None,
        }
    } else {
        proof {
            if i < v@.len() {
                assert(v@.skip(i as int)[0] == v@[i as int]);
            } else {
                assert(v@.skip(i as int).len() == 0);
            }
        }
        match parse_u64_exec(v, i) {
            Some((n, j)) => {
                if n <= 0x7fff_ffff {
                    Some((n as i32, j))
                } else {
                    None
                }
            },
            None => None,
        }
    }
}

/// Parses a decimal number with up to two decimals from position `i`
/// into hundredths, as [`parse_hundredths`].
pub fn parse_hundredths_exec(v: &Vec<char>, i: usize) -> (r: Option<(u64, usize)>)
    requires
        i <= v@.len(),
    ensures
        match r {
            Some(p) => p.1 <= v@.len() && parse_hundredths(v@.skip(i as int)) == Some(
                (p.0 as nat, v@.skip(p.1 as int)),
            ),
            None => parse_hundredths(v@.skip(i as int)) is None,
        },
{
    let whole = match parse_u64_exec(v, i) {
        Some(p) => p,
        None => {
            return None;
        },
    };
    let (w, j) = whole;
    let ghost rest = v@.skip(j as int);
    let has_dot = j < v.len() && v[j] == '.';
    proof {
        if j < v@.len() {
            assert(rest[0] == v@[j as int]);
        }
    }
    if !has_dot {
        if w > u64::MAX / 100 {
            proof {
                vstd::arithmetic::div_mod::lemma_fundamental_div_mod(u64::MAX as int, 100);
            }
            return None;
        }
        proof {
            vstd::arithmetic::div_mod::lemma_fundamental_div_mod(u64::MAX as int, 100);
        }
        return Some((w * 100, j));
    }
    if v.len() - j < 2 {
        return None;
    }
    proof {
        assert(rest[1] == v@[j + 1]);
    }
    if !is_digit_exec(v[j + 1]) {
        return None;
    }
    let d1: u64 = ((v[j + 1] as u32) - 48) as u64;
    let two_digits = v.len() - j > 2 && is_digit_exec(v[j + 2]);
    proof {
        if v@.len() - j > 2 {
            assert(rest[2] == v@[j + 2]);
        }
    }
    if !two_digits {
        let frac: u64 = d1 * 10;
        if w > (u64::MAX - frac) / 100 {
            proof {
                vstd::arithmetic::div_mod::lemma_fundamental_div_mod(
                    (u64::MAX - frac) as int,
                    100,
                );
            }
            return None;
        }
        proof {
            vstd::arithmetic::div_mod::lemma_fundamental_div_mod((u64::MAX - frac) as int, 100);
            assert(rest.skip(2) =~= v@.skip(j + 2));
        }
        return Some((w * 100 + frac, j + 2));
    }
    let d2: u64 = ((v[j + 2] as u32) - 48) as u64;
    if v.len() - j > 3 {
        proof {
            assert(rest[3] == v@[j + 3]);
        }
        if is_digit_exec(v[j + 3]) {
            return None;
        }
    }
    let frac: u64 = d1 * 10 + d2;
    if w > (u64::MAX - frac) / 100 {
        proof {
            vstd::arithmetic::div_mod::lemma_fundamental_div_mod((u64::MAX - frac) as int, 100);
        }
        return None;
    }
    proof {
        vstd::arithmetic::div_mod::lemma_fundamental_div_mod((u64::MAX - frac) as int, 100);
        assert(rest.skip(3) =~= v@.skip(j + 3));
    }
    Some((w * 100 + frac, j + 3))
}

/// Skipping whitespace jumps over a whitespace prefix.
pub proof fn lemma_skip_ws_concat(ws: Seq<char>, x: Seq<char>)
    requires
        forall|i: int| 0 <= i < ws.len() ==> is_ws(#[trigger] ws[i]),
        x.len() > 0 ==> !is_ws(x[0]),
    ensures
        skip_ws(ws + x) == x,
    decreases ws.len(),
{
    if ws.len() == 0 {
        assert(ws + x =~= x);
        if x.len() > 0 {
            assert(skip_ws(x) == x);
        }
    } else {
        assert((ws + x)[0] == ws[0]);
        assert((ws + x).drop_first() =~= ws.drop_first() + x);
        lemma_skip_ws_concat(ws.drop_first(), x);
    }
}

/// Skipping whitespace is the identity when none leads.
pub proof fn lemma_skip_ws_noop(x: Seq<char>)
    requires
        x.len() == 0 || !is_ws(x[0]),
    ensures
        skip_ws(x) == x,
{
}

/// A literal parses off the front of itself.
pub proof fn lemma_parse_lit_emit(lit: Seq<char>, rest: Seq<char>)
    ensures
        parse_lit(lit + rest, lit) == Some(rest),
{
    assert((lit + rest).take(lit.len() as int) =~= lit);
    assert((lit + rest).skip(lit.len() as int) =~= rest);
}

/// A digit character round-trips through its value.
pub proof fn lemma_digit_char_val(d: nat)
    requires
        d < 10,
    ensures
        is_digit(digit_char(d)),
        digit_val(digit_char(d)) == d,
{
}

/// A hexadecimal digit character round-trips through its value.
pub proof fn lemma_hex_char_val(k: nat)
    requires
        k < 16,
    ensures
        is_hex(hex_char(k)),
        hex_val(hex_char(k)) == k,
{
    if k < 10 {
        lemma_digit_char_val(k);
    }
}

/// The string body parser undoes the escaper: an escaped body followed by
/// the closing quote parses back to the original characters.
pub proof fn lemma_parse_body_emit(sv: Seq<char>, rest: Seq<char>)
    ensures
        parse_str_body(esc_seq(sv) + seq!['"'] + rest) == Some((sv, rest)),
    decreases sv.len(),
{
    if sv.len() == 0 {
        assert(esc_seq(sv) + seq!['"'] + rest =~= seq!['"'] + rest);
        let s = seq!['"'] + rest;
        assert(s[0] == '"');
        assert(s.drop_first() =~= rest);
        assert(Seq::<char>::empty() =~= sv);
    } else {
        let c = sv[0];
        let tail = sv.drop_first();
        let s = esc_seq(sv) + seq!['"'] + rest;
        let inner = esc_seq(tail) + seq!['"'] + rest;
        assert(esc_seq(sv) == esc_char(c) + esc_seq(tail));
        assert(s =~= esc_char(c) + inner);
        lemma_parse_body_emit(tail, rest);
        if c == '"' || c == '\\' || c == '\n' || c == '\r' || c == '\t' {
            assert(s[0] == '\\' && s.len() >= 2);
            assert(s[1] == esc_char(c)[1]);
            assert(s.skip(2) =~= inner);
            assert(unesc_char(s[1]) == c);
            assert(seq![c] + tail =~= sv);
        } else if (c as u32) < 32 {
            let code_hi = ((c as u32) / 16) as nat;
            let code_lo = ((c as u32) % 16) as nat;
            vstd::arithmetic::div_mod::lemma_fundamental_div_mod(c as u32 as int, 16);
            assert(s[0] == '\\' && s[1] == 'u' && s[2] == '0' && s[3] == '0' && s[4] == hex_char(
                code_hi,
            ) && s[5] == hex_char(code_lo));
            assert(s.len() >= 6);
            lemma_hex_char_val(code_hi);
            lemma_hex_char_val(code_lo);
            assert(is_hex(s[2]) && is_hex(s[3]) && is_hex(s[4]) && is_hex(s[5]));
            let code = hex_val(s[2]) * 4096 + hex_val(s[3]) * 256 + hex_val(s[4]) * 16 + hex_val(
                s[5],
            );
            assert(hex_val(s[2]) == 0 && hex_val(s[3]) == 0);
            assert(code == code_hi * 16 + code_lo);
            assert(code == c as u32) by {
                vstd::arithmetic::div_mod::lemma_fundamental_div_mod(c as u32 as int, 16);
            }
            assert(code < 128);
            assert((code as u8) as char == c) by {
                vstd::utf8::char_u32_cast(c, c as u32);
            }
            assert(s.skip(6) =~= inner);
            assert(seq![c] + tail =~= sv);
        } else {
            assert(plain_char(c));
            assert(esc_char(c) == seq![c]);
            assert(s[0] == c);
            assert(s.drop_first() =~= inner);
            assert(seq![c] + tail =~= sv);
        }
    }
}

/// A whole emitted JSON string parses back to its characters.
pub proof fn lemma_parse_string_emit(sv: Seq<char>, rest: Seq<char>)
    ensures
        parse_string(emit_string(sv) + rest) == Some((sv, rest)),
{
    let s = emit_string(sv) + rest;
    assert(s[0] == '"');
    assert(s.drop_first() =~= esc_seq(sv) + seq!['"'] + rest);
    lemma_parse_body_emit(sv, rest);
}

/// Ten to the `k`.
pub open spec fn pow10(k: nat) -> nat
    decreases k,
{
    if k == 0 {
        1
    } else {
        10 * pow10((k - 1) as nat)
    }
}

/// The digits of a number are digits, starting with one.
pub proof fn lemma_emit_u64_digits(n: nat)
    ensures
        emit_u64(n).len() > 0,
        forall|i: int| 0 <= i < emit_u64(n).len() ==> is_digit(#[trigger] emit_u64(n)[i]),
    decreases n,
{
    if n < 10 {
        lemma_digit_char_val(n);
    } else {
        lemma_emit_u64_digits(n / 10);
        lemma_digit_char_val(n % 10);
        assert(forall|i: int|
            0 <= i < emit_u64(n / 10).len() ==> emit_u64(n)[i] == emit_u64(n / 10)[i]);
        assert(emit_u64(n)[emit_u64(n).len() - 1] == digit_char(n % 10));
    }
}

/// Folding the emitted digits of `n` onto `acc` scales `acc` past them and
/// adds `n`.
pub proof fn lemma_parse_digits_emit(n: nat, acc: nat, rest: Seq<char>)
    ensures
        parse_digits(emit_u64(n) + rest, acc) == parse_digits(
            rest,
            acc * pow10(emit_u64(n).len()) + n,
        ),
    decreases n,
{
    lemma_emit_u64_digits(n);
    if n < 10 {
        let s = emit_u64(n) + rest;
        lemma_digit_char_val(n);
        assert(s[0] == digit_char(n));
        assert(s.drop_first() =~= rest);
        assert(parse_digits(s, acc) == parse_digits(rest, acc * 10 + n));
        assert(pow10(0) == 1);
        assert(pow10(1) == 10);
        assert(acc * pow10(1) == acc * 10) by (nonlinear_arith)
            requires
                pow10(1) == 10,
        ;
    } else {
        let hi = emit_u64(n / 10);
        let last = digit_char(n % 10);
        assert(emit_u64(n) + rest =~= hi + (seq![last] + rest));
        lemma_parse_digits_emit(n / 10, acc, seq![last] + rest);
        let mid = acc * pow10(hi.len()) + n / 10;
        let s2 = seq![last] + rest;
        lemma_digit_char_val(n % 10);
        assert(s2[0] == last);
        assert(s2.drop_first() =~= rest);
        assert(parse_digits(s2, mid) == parse_digits(rest, mid * 10 + n % 10));
        assert(emit_u64(n).len() == hi.len() + 1);
        assert(pow10(hi.len() + 1) == 10 * pow10(hi.len()));
        vstd::arithmetic::div_mod::lemma_fundamental_div_mod(n as int, 10);
        assert(mid * 10 + n % 10 == acc * pow10(hi.len() + 1) + n) by (nonlinear_arith)
            requires
                mid == acc * pow10(hi.len()) + n / 10,
                pow10(hi.len() + 1) == 10 * pow10(hi.len()),
                n == 10 * (n / 10) + n % 10,
        ;
    }
}

/// An emitted unsigned number parses back to its value when what follows
/// starts with no digit.
pub proof fn lemma_parse_u64_emit(n: nat, rest: Seq<char>)
    requires
        n <= u64::MAX,
        rest.len() > 0 ==> !is_digit(rest[0]),
    ensures
        parse_u64(emit_u64(n) + rest) == Some((n, rest)),
{
    lemma_emit_u64_digits(n);
    let s = emit_u64(n) + rest;
    assert(s[0] == emit_u64(n)[0]);
    lemma_parse_digits_emit(n, 0, rest);
    assert(0 * pow10(emit_u64(n).len()) == 0) by (nonlinear_arith);
    if rest.len() > 0 {
        assert(parse_digits(rest, n) == (n, rest));
    } else {
        assert(parse_digits(rest, n) == (n, rest));
    }
}

/// An emitted signed number parses back to its value when what follows
/// starts with no digit.
pub proof fn lemma_parse_i32_emit(v: int, rest: Seq<char>)
    requires
        -0x8000_0000 <= v <= 0x7fff_ffff,
        rest.len() > 0 ==> !is_digit(rest[0]),
    ensures
        parse_i32(emit_int(v) + rest) == Some((v, rest)),
{
    if v < 0 {
        let m = (-v) as nat;
        let s = emit_int(v) + rest;
        assert(s[0] == '-');
        assert(s.drop_first() =~= emit_u64(m) + rest);
        lemma_parse_u64_emit(m, rest);
    } else {
        let s = emit_int(v) + rest;
        lemma_emit_u64_digits(v as nat);
        assert(s[0] == emit_u64(v as nat)[0]);
        assert(is_digit(s[0]));
        assert(s[0] != '-');
        assert(emit_int(v) + rest =~= emit_u64(v as nat) + rest);
        lemma_parse_u64_emit(v as nat, rest);
    }
}

/// An emitted two-decimal number parses back to its hundredths when what
/// follows starts with no digit.
pub proof fn lemma_parse_hundredths_emit(n: nat, rest: Seq<char>)
    requires
        n <= u64::MAX,
        rest.len() > 0 ==> !is_digit(rest[0]),
    ensures
        parse_hundredths(emit_hundredths(n) + rest) == Some((n, rest)),
{
    let hi = n / 100;
    let d1 = (n % 100) / 10;
    let d2 = (n % 100) % 10;
    vstd::arithmetic::div_mod::lemma_fundamental_div_mod(n as int, 100);
    vstd::arithmetic::div_mod::lemma_fundamental_div_mod((n % 100) as int, 10);
    lemma_digit_char_val(d1);
    lemma_digit_char_val(d2);
    let tail = seq!['.', digit_char(d1), digit_char(d2)] + rest;
    assert(emit_hundredths(n) + rest =~= emit_u64(hi) + tail);
    assert(!is_digit(tail[0]));
    lemma_parse_u64_emit(hi, tail);
    assert(tail[1] == digit_char(d1) && tail[2] == digit_char(d2));
    assert(tail.len() > 3 ==> tail[3] == rest[0]);
    assert(hi * 100 + digit_val(tail[1]) * 10 + digit_val(tail[2]) == n);
    assert(tail.skip(3) =~= rest);
}

} // verus!
