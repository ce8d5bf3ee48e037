//! Primitives of the snapshot format: JSON-style strings, decimal
//! numbers, booleans, optional values and lists, each with an encoder, a
//! parser, and a proof that parsing an encoding yields the value back.
//!
//! Every parser here works on a suffix of the input: the specification
//! functions take the remaining characters and say what value a prefix of
//! them denotes and how many characters it occupies; the executable
//! parsers walk a cursor over a `Vec<char>` and agree with them exactly.

use crate::text::{chars_of, string_from_chars};
use vstd::prelude::*;

verus! {

// --- literals ---

/// A fixed literal occupies the front of `s`.
pub open spec fn sp_lit(s: Seq<char>, lit: Seq<char>) -> Option<int> {
    if lit.len() <= s.len() && s.take(lit.len() as int) == lit {
        Some(lit.len() as int)
    } else {
        None
    }
}

/// Splitting a concatenation at the seam recovers both halves.
pub proof fn lemma_concat_parts<T>(a: Seq<T>, b: Seq<T>)
    ensures
        (a + b).skip(a.len() as int) == b,
        (a + b).take(a.len() as int) == a,
{
    assert((a + b).skip(a.len() as int) =~= b);
    assert((a + b).take(a.len() as int) =~= a);
}

/// A literal parses off the front of anything it prefixes.
pub proof fn lemma_lit_rt(lit: Seq<char>, rest: Seq<char>)
    ensures
        sp_lit(lit + rest, lit) == Some(lit.len() as int),
        (lit + rest).skip(lit.len() as int) == rest,
{
    lemma_concat_parts(lit, rest);
}

/// The literal `lit` occupies the input at the cursor; on success the
/// cursor lands right behind it.
pub fn expect_lit(input: &Vec<char>, pos: usize, lit: &str) -> (r: Option<usize>)
    requires
        pos <= input@.len(),
    ensures
        match sp_lit(input@.skip(pos as int), lit@) {
            Some(n) => r matches Some(p) && p as int == pos + n && pos <= p <= input@.len(),
            None => r is None,
        },
{
    let lc = chars_of(lit);
    if input.len() - pos < lc.len() {
        assert(sp_lit(input@.skip(pos as int), lit@) is None);
        return None;
    }
    let mut j: usize = 0;
    while j < lc.len()
        invariant
            lc@ == lit@,
            pos + lc@.len() <= input@.len(),
            input@.len() <= usize::MAX,
            j <= lc@.len(),
            forall|k: int| 0 <= k < j ==> input@[pos + k] == lit@[k],
        decreases lc@.len() - j,
    {
        if input[pos + j] != lc[j] {
            proof {
                let s = input@.skip(pos as int);
                if s.take(lit@.len() as int) == lit@ {
                    assert(s.take(lit@.len() as int)[j as int] == s[j as int]);
                    assert(s[j as int] == input@[pos + j]);
                }
            }
            return None;
        }
        j += 1;
    }
    proof {
        let s = input@.skip(pos as int);
        assert(s.take(lit@.len() as int) =~= lit@);
    }
    Some(pos + lc.len())
}

// --- strings ---

/// How one character is written inside a quoted string.
pub open spec fn escape_char(c: char) -> Seq<char> {
    if c == '"' {
        seq!['\\', '"']
    } else if c == '\\' {
        seq!['\\', '\\']
    } else {
        seq![c]
    }
}

/// A whole string body, escaped.
pub open spec fn escape(s: Seq<char>) -> Seq<char>
    decreases s.len(),
{
    if s.len() == 0 {
        Seq::empty()
    } else {
        escape_char(s[0]) + escape(s.skip(1))
    }
}

/// A quoted, escaped string.
pub open spec fn enc_str(s: Seq<char>) -> Seq<char> {
    seq!['"'] + escape(s) + seq!['"']
}

/// The body of a quoted string: characters up to the closing quote, with
/// `\"` and `\\` standing for the quote and the backslash.  The count
/// includes the closing quote.
pub open spec fn sp_str_body(s: Seq<char>) -> Option<(Seq<char>, int)>
    decreases s.len(),
{
    if s.len() == 0 {
        None
    } else if s[0] == '"' {
        Some((Seq::empty(), 1))
    } else if s[0] == '\\' {
        if s.len() >= 2 && (s[1] == '"' || s[1] == '\\') {
            match sp_str_body(s.skip(2)) {
                Some((v, n)) => Some((seq![s[1]] + v, n + 2)),
                None => None,
            }
        } else {
            None
        }
    } else {
        match sp_str_body(s.skip(1)) {
            Some((v, n)) => Some((seq![s[0]] + v, n + 1)),
            None => None,
        }
    }
}

/// A quoted string at the front of `s`.
pub open spec fn sp_str(s: Seq<char>) -> Option<(Seq<char>, int)> {
    if s.len() >= 1 && s[0] == '"' {
        match sp_str_body(s.skip(1)) {
            Some((v, n)) => Some((v, n + 1)),
            None => None,
        }
    } else {
        None
    }
}

proof fn lemma_str_body_rt(v: Seq<char>, rest: Seq<char>)
    ensures
        sp_str_body(escape(v) + seq!['"'] + rest) == Some::<(Seq<char>, int)>(
            (v, escape(v).len() as int + 1),
        ),
    decreases v.len(),
{
    let s = escape(v) + seq!['"'] + rest;
    if v.len() == 0 {
        assert(s =~= seq!['"'] + rest);
        assert(s[0] == '"');
    } else {
        let v1 = v.skip(1);
        assert(escape(v) == escape_char(v[0]) + escape(v1));
        lemma_str_body_rt(v1, rest);
        if v[0] == '"' || v[0] == '\\' {
            assert(s =~= seq!['\\', v[0]] + (escape(v1) + seq!['"'] + rest));
            assert(s[0] == '\\');
            assert(s[1] == v[0]);
            assert(s.skip(2) =~= escape(v1) + seq!['"'] + rest);
            assert(seq![s[1]] + v1 =~= v);
        } else {
            assert(s =~= seq![v[0]] + (escape(v1) + seq!['"'] + rest));
            assert(s[0] == v[0]);
            assert(s.skip(1) =~= escape(v1) + seq!['"'] + rest);
            assert(seq![s[0]] + v1 =~= v);
        }
    }
}

/// Parsing an encoded string yields the string back.
pub proof fn lemma_str_rt(v: Seq<char>, rest: Seq<char>)
    ensures
        sp_str(enc_str(v) + rest) == Some::<(Seq<char>, int)>((v, enc_str(v).len() as int)),
        enc_str(v).len() > 0,
        (enc_str(v) + rest)[0] == '"',
{
    let s = enc_str(v) + rest;
    assert(s =~= seq!['"'] + (escape(v) + seq!['"'] + rest));
    assert(s[0] == '"');
    assert(s.skip(1) =~= escape(v) + seq!['"'] + rest);
    lemma_str_body_rt(v, rest);
}

/// The string body at the cursor (the cursor stands just past the opening
/// quote).
fn p_str_body(input: &Vec<char>, pos: usize) -> (r: Option<(Vec<char>, usize)>)
    requires
        pos <= input@.len(),
    ensures
        match sp_str_body(input@.skip(pos as int)) {
            Some((v, n)) => r matches Some((rv, rp)) && rv@ == v && rp as int == pos + n && pos
                <= rp <= input@.len(),
            None => r is None,
        },
    decreases input@.len() - pos,
{
    let n = input.len();
    if pos >= n {
        return None;
    }
    let ghost s = input@.skip(pos as int);
    proof {
        assert(s[0] == input@[pos as int]);
    }
    let c = input[pos];
    if c == '"' {
        Some((Vec::new(), pos + 1))
    } else if c == '\\' {
        if pos + 1 < n {
            let e = input[pos + 1];
            proof {
                assert(s[1] == input@[pos + 1]);
            }
            if e == '"' || e == '\\' {
                proof {
                    assert(s.skip(2) =~= input@.skip(pos + 2));
                }
                match p_str_body(input, pos + 2) {
                    Some((mut v, rp)) => {
                        v.insert(0, e);
                        proof {
                            assert(v@ =~= seq![s[1]] + v@.skip(1));
                        }
                        Some((v, rp))
                    },
                    None => None,
                }
            } else {
                None
            }
        } else {
            None
        }
    } else {
        proof {
            assert(s.skip(1) =~= input@.skip(pos + 1));
        }
        match p_str_body(input, pos + 1) {
            Some((mut v, rp)) => {
                v.insert(0, c);
                proof {
                    assert(v@ =~= seq![s[0]] + v@.skip(1));
                }
                Some((v, rp))
            },
            None => None,
        }
    }
}

/// A quoted string at the cursor.
pub fn p_str(input: &Vec<char>, pos: usize) -> (r: Option<(String, usize)>)
    requires
        pos <= input@.len(),
    ensures
        match sp_str(input@.skip(pos as int)) {
            Some((v, n)) => r matches Some((rv, rp)) && rv@ == v && rp as int == pos + n && pos
                <= rp <= input@.len(),
            None => r is None,
        },
{
    if pos >= input.len() {
        return None;
    }
    proof {
        assert(input@.skip(pos as int)[0] == input@[pos as int]);
    }
    if input[pos] != '"' {
        return None;
    }
    proof {
        assert(input@.skip(pos as int).skip(1) =~= input@.skip(pos + 1));
    }
    match p_str_body(input, pos + 1) {
        Some((v, rp)) => Some((string_from_chars(&v), rp)),
        None => None,
    }
}

/// Writes a quoted, escaped string.
pub fn w_str(out: &mut Vec<char>, s: &str)
    ensures
        final(out)@ == old(out)@ + enc_str(s@),
{
    let cs = chars_of(s);
    let ghost pre = out@;
    out.push('"');
    let mut i: usize = 0;
    proof {
        assert(s@.skip(0) =~= s@);
        assert(out@ + escape(s@.skip(0)) =~= pre + seq!['"'] + escape(s@));
    }
    while i < cs.len()
        invariant
            cs@ == s@,
            i <= s@.len(),
            out@ + escape(s@.skip(i as int)) == pre + seq!['"'] + escape(s@),
        decreases s@.len() - i,
    {
        let c = cs[i];
        let ghost mid = out@;
        if c == '"' {
            out.push('\\');
            out.push('"');
        } else if c == '\\' {
            out.push('\\');
            out.push('\\');
        } else {
            out.push(c);
        }
        proof {
            let rest = s@.skip(i as int);
            assert(rest[0] == s@[i as int]);
            assert(rest.skip(1) =~= s@.skip(i + 1));
            assert(escape(rest) == escape_char(rest[0]) + escape(rest.skip(1)));
            assert(out@ =~= mid + escape_char(s@[i as int]));
            assert(out@ + escape(s@.skip(i + 1)) =~= mid + escape(rest));
        }
        i += 1;
    }
    proof {
        assert(s@.skip(s@.len() as int) =~= Seq::<char>::empty());
        assert(out@ + escape(Seq::<char>::empty()) =~= out@);
    }
    out.push('"');
    proof {
        assert(out@ =~= pre + enc_str(s@));
    }
}

// --- decimal numbers ---

/// A decimal digit.
pub open spec fn is_digit(c: char) -> bool {
    48 <= c as u32 <= 57
}

/// Its value.
pub open spec fn digit_val(c: char) -> int {
    c as u32 - 48
}

/// The digit character for a value below ten.
pub open spec fn digit_char(d: int) -> char {
    if d == 0 {
        '0'
    } else if d == 1 {
        '1'
    } else if d == 2 {
        '2'
    } else if d == 3 {
        '3'
    } else if d == 4 {
        '4'
    } else if d == 5 {
        '5'
    } else if d == 6 {
        '6'
    } else if d == 7 {
        '7'
    } else if d == 8 {
        '8'
    } else {
        '9'
    }
}

/// The decimal rendering of a number, most significant digit first.
pub open spec fn dec_nat(n: nat) -> Seq<char>
    decreases n,
{
    if n < 10 {
        seq![digit_char(n as int)]
    } else {
        dec_nat(n / 10) + seq![digit_char((n % 10) as int)]
    }
}

/// The decimal rendering of a `u64`.
pub open spec fn enc_u64(n: u64) -> Seq<char> {
    dec_nat(n as nat)
}

/// Powers of ten.
pub open spec fn pow10(k: nat) -> int
    decreases k,
{
    if k == 0 {
        1
    } else {
        10 * pow10((k - 1) as nat)
    }
}

/// Greedy digit scan: `acc` is the value of the digits already read,
/// `seen` how many characters that took.  Fails on a value beyond `u64`.
pub open spec fn sp_u64_rec(s: Seq<char>, acc: int, seen: int) -> Option<(u64, int)>
    decreases s.len(),
{
    if s.len() > 0 && is_digit(s[0]) {
        let v = acc * 10 + digit_val(s[0]);
        if v > u64::MAX as int {
            None
        } else {
            sp_u64_rec(s.skip(1), v, seen + 1)
        }
    } else if seen > 0 && 0 <= acc <= u64::MAX as int {
        Some((acc as u64, seen))
    } else {
        None
    }
}

/// A decimal `u64` at the front of `s`: one or more digits, stopping at
/// the first non-digit.
pub open spec fn sp_u64(s: Seq<char>) -> Option<(u64, int)> {
    sp_u64_rec(s, 0, 0)
}

proof fn lemma_digit_char(d: int)
    requires
        0 <= d < 10,
    ensures
        is_digit(digit_char(d)),
        digit_val(digit_char(d)) == d,
{
}

/// Renderings hold only digits and at least one of them.
pub proof fn lemma_dec_nat_digits(n: nat)
    ensures
        dec_nat(n).len() >= 1,
        forall|i: int| 0 <= i < dec_nat(n).len() ==> is_digit(#[trigger] dec_nat(n)[i]),
    decreases n,
{
    if n < 10 {
        lemma_digit_char(n as int);
    } else {
        lemma_dec_nat_digits(n / 10);
        lemma_digit_char((n % 10) as int);
        assert forall|i: int| 0 <= i < dec_nat(n).len() implies is_digit(
            #[trigger] dec_nat(n)[i],
        ) by {
            if i < dec_nat(n / 10).len() {
                assert(dec_nat(n)[i] == dec_nat(n / 10)[i]);
            } else {
                assert(dec_nat(n)[i] == digit_char((n % 10) as int));
            }
        }
    }
}

proof fn lemma_parse_dec(n: nat, acc: int, seen: int, rest: Seq<char>)
    requires
        0 <= acc,
        acc * pow10(dec_nat(n).len() as nat) + n <= u64::MAX as int,
    ensures
        sp_u64_rec(dec_nat(n) + rest, acc, seen) == sp_u64_rec(
            rest,
            acc * pow10(dec_nat(n).len() as nat) + n,
            seen + dec_nat(n).len(),
        ),
    decreases n,
{
    let s = dec_nat(n) + rest;
    if n < 10 {
        lemma_digit_char(n as int);
        assert(s =~= seq![digit_char(n as int)] + rest);
        assert(s[0] == digit_char(n as int));
        assert(pow10(1) == 10) by {
            assert(pow10(1) == 10 * pow10(0));
        }
        let v = acc * 10 + n;
        assert(v <= u64::MAX as int);
        assert(s.skip(1) =~= rest);
    } else {
        let l1 = dec_nat(n / 10).len() as nat;
        let d = digit_char((n % 10) as int);
        lemma_digit_char((n % 10) as int);
        assert(dec_nat(n) == dec_nat(n / 10) + seq![d]);
        assert(dec_nat(n).len() == l1 + 1);
        assert(pow10((l1 + 1) as nat) == 10 * pow10(l1));
        assert(s =~= dec_nat(n / 10) + (seq![d] + rest));
        let acc2 = acc * pow10(l1) + n / 10;
        assert(10 * (n / 10) + n % 10 == n) by {
            vstd::arithmetic::div_mod::lemma_fundamental_div_mod(n as int, 10);
        }
        assert(acc2 * 10 + n % 10 == acc * pow10((l1 + 1) as nat) + n) by (nonlinear_arith)
            requires
                acc2 == acc * pow10(l1) + n / 10,
                pow10((l1 + 1) as nat) == 10 * pow10(l1),
                10 * (n / 10) + n % 10 == n,
        ;
        assert(0 <= n % 10 < 10);
        assert(pow10(l1) >= 1) by {
            lemma_pow10_pos(l1);
        }
        assert(acc2 >= 0) by (nonlinear_arith)
            requires
                acc >= 0,
                pow10(l1) >= 1,
                n / 10 >= 0,
                acc2 == acc * pow10(l1) + n / 10,
        ;
        // the requires of the recursive call: acc2 itself stays in range,
        // because appending a digit only grows the value
        assert(acc * pow10(l1) + n / 10 <= u64::MAX as int) by (nonlinear_arith)
            requires
                acc2 >= 0,
                acc2 * 10 + n % 10 <= u64::MAX as int,
                0 <= n % 10,
                acc2 == acc * pow10(l1) + n / 10,
        ;
        lemma_parse_dec((n / 10) as nat, acc, seen, seq![d] + rest);
        assert(sp_u64_rec(s, acc, seen) == sp_u64_rec(seq![d] + rest, acc2, seen + l1));
        let s2 = seq![d] + rest;
        assert(s2[0] == d);
        assert(is_digit(d));
        let v = acc2 * 10 + digit_val(d);
        assert(v == acc * pow10((l1 + 1) as nat) + n);
        assert(v <= u64::MAX as int);
        assert(s2.skip(1) =~= rest);
    }
}

proof fn lemma_pow10_pos(k: nat)
    ensures
        pow10(k) >= 1,
    decreases k,
{
    if k > 0 {
        lemma_pow10_pos((k - 1) as nat);
    }
}

/// Parsing a rendered `u64` yields the number back, provided what follows
/// does not begin with a digit.
pub proof fn lemma_u64_rt(n: u64, rest: Seq<char>)
    requires
        rest.len() == 0 || !is_digit(rest[0]),
    ensures
        sp_u64(enc_u64(n) + rest) == Some::<(u64, int)>((n, enc_u64(n).len() as int)),
        enc_u64(n).len() > 0,
    decreases n,
{
    lemma_dec_nat_digits(n as nat);
    lemma_pow10_pos(dec_nat(n as nat).len() as nat);
    assert(0 * pow10(dec_nat(n as nat).len() as nat) == 0) by (nonlinear_arith);
    lemma_parse_dec(n as nat, 0, 0, rest);
    if rest.len() > 0 {
        assert(!is_digit(rest[0]));
    }
}

/// Writes a fixed literal.
pub fn w_lit(out: &mut Vec<char>, s: &str)
    ensures
        final(out)@ == old(out)@ + s@,
{
    let mut cs = chars_of(s);
    out.append(&mut cs);
}

fn digit_of(d: u64) -> (c: char)
    requires
        d < 10,
    ensures
        c == digit_char(d as int),
{
    if d == 0 {
        '0'
    } else if d == 1 {
        '1'
    } else if d == 2 {
        '2'
    } else if d == 3 {
        '3'
    } else if d == 4 {
        '4'
    } else if d == 5 {
        '5'
    } else if d == 6 {
        '6'
    } else if d == 7 {
        '7'
    } else if d == 8 {
        '8'
    } else {
        '9'
    }
}

/// Writes a `u64` in decimal.
pub fn w_u64(out: &mut Vec<char>, n: u64)
    ensures
        final(out)@ == old(out)@ + enc_u64(n),
    decreases n,
{
    if n < 10 {
        out.push(digit_of(n));
        proof {
            assert(old(out)@ + enc_u64(n) =~= out@);
        }
    } else {
        w_u64(out, n / 10);
        out.push(digit_of(n % 10));
        proof {
            assert(dec_nat(n as nat) == dec_nat(n as nat / 10) + seq![
                digit_char((n as nat % 10) as int),
            ]);
            assert(old(out)@ + enc_u64(n) =~= out@);
        }
    }
}

fn p_u64_rec(input: &Vec<char>, pos: usize, acc: u64, got: bool, Ghost(seen): Ghost<int>) -> (r:
    Option<(u64, usize)>)
    requires
        pos <= input@.len(),
        got == (seen > 0),
        seen >= 0,
    ensures
        match sp_u64_rec(input@.skip(pos as int), acc as int, seen) {
            Some((v, n)) => r matches Some((rv, rp)) && rv == v && rp as int == pos + (n - seen)
                && pos <= rp <= input@.len(),
            None => r is None,
        },
    decreases input@.len() - pos,
{
    let ghost s = input@.skip(pos as int);
    if pos < input.len() {
        proof {
            assert(s[0] == input@[pos as int]);
        }
        let c = input[pos];
        let cu = c as u32;
        if 48 <= cu && cu <= 57 {
            let d = (cu - 48) as u64;
            let v128 = acc as u128 * 10 + d as u128;
            if v128 > u64::MAX as u128 {
                return None;
            }
            proof {
                assert(s.skip(1) =~= input@.skip(pos + 1));
            }
            return p_u64_rec(input, pos + 1, v128 as u64, true, Ghost(seen + 1));
        }
        if got {
            return Some((acc, pos));
        }
        return None;
    }
    if got {
        Some((acc, pos))
    } else {
        None
    }
}

/// A decimal `u64` at the cursor.
pub fn p_u64(input: &Vec<char>, pos: usize) -> (r: Option<(u64, usize)>)
    requires
        pos <= input@.len(),
    ensures
        match sp_u64(input@.skip(pos as int)) {
            Some((v, n)) => r matches Some((rv, rp)) && rv == v && rp as int == pos + n && pos
                <= rp <= input@.len(),
            None => r is None,
        },
{
    p_u64_rec(input, pos, 0, false, Ghost(0))
}

// --- booleans ---

/// `true` or `false`, spelled out.
pub open spec fn enc_bool(b: bool) -> Seq<char> {
    if b {
        "true"@
    } else {
        "false"@
    }
}

/// A spelled-out boolean at the front of `s`.
pub open spec fn sp_bool(s: Seq<char>) -> Option<(bool, int)> {
    if sp_lit(s, "true"@) is Some {
        Some((true, "true"@.len() as int))
    } else if sp_lit(s, "false"@) is Some {
        Some((false, "false"@.len() as int))
    } else {
        None
    }
}

/// Parsing an encoded boolean yields it back.
pub proof fn lemma_bool_rt(b: bool, rest: Seq<char>)
    ensures
        sp_bool(enc_bool(b) + rest) == Some::<(bool, int)>((b, enc_bool(b).len() as int)),
        enc_bool(b).len() > 0,
        (enc_bool(b) + rest)[0] != ']',
        (enc_bool(b) + rest)[0] != '"',
{
    reveal_strlit("true");
    reveal_strlit("false");
    let s = enc_bool(b) + rest;
    if b {
        lemma_lit_rt("true"@, rest);
    } else {
        lemma_lit_rt("false"@, rest);
        if sp_lit(s, "true"@) is Some {
            assert(s.take(4)[0] == s[0]);
            assert(false);
        }
    }
}

/// A spelled-out boolean at the cursor.
pub fn p_bool(input: &Vec<char>, pos: usize) -> (r: Option<(bool, usize)>)
    requires
        pos <= input@.len(),
    ensures
        match sp_bool(input@.skip(pos as int)) {
            Some((v, n)) => r matches Some((rv, rp)) && rv == v && rp as int == pos + n && pos
                <= rp <= input@.len(),
            None => r is None,
        },
{
    match expect_lit(input, pos, "true") {
        Some(p) => Some((true, p)),
        None => match expect_lit(input, pos, "false") {
            Some(p) => Some((false, p)),
            None => None,
        },
    }
}

/// Writes a boolean.
pub fn w_bool(out: &mut Vec<char>, b: bool)
    ensures
        final(out)@ == old(out)@ + enc_bool(b),
{
    if b {
        w_lit(out, "true");
    } else {
        w_lit(out, "false");
    }
}

// --- optional values ---

/// An optional string: `null` or the string itself.
pub open spec fn enc_opt_str(o: Option<Seq<char>>) -> Seq<char> {
    match o {
        None => "null"@,
        Some(v) => enc_str(v),
    }
}

/// An optional string at the front of `s`.
pub open spec fn sp_opt_str(s: Seq<char>) -> Option<(Option<Seq<char>>, int)> {
    if sp_lit(s, "null"@) is Some {
        Some((None, "null"@.len() as int))
    } else {
        match sp_str(s) {
            Some((v, n)) => Some((Some(v), n)),
            None => None,
        }
    }
}

/// Parsing an encoded optional string yields it back.
pub proof fn lemma_opt_str_rt(o: Option<Seq<char>>, rest: Seq<char>)
    ensures
        sp_opt_str(enc_opt_str(o) + rest) == Some::<(Option<Seq<char>>, int)>(
            (o, enc_opt_str(o).len() as int),
        ),
        enc_opt_str(o).len() > 0,
        (enc_opt_str(o) + rest)[0] != ']',
{
    reveal_strlit("null");
    let s = enc_opt_str(o) + rest;
    match o {
        None => {
            lemma_lit_rt("null"@, rest);
        },
        Some(v) => {
            lemma_str_rt(v, rest);
            if sp_lit(s, "null"@) is Some {
                assert(s.take(4)[0] == s[0]);
                assert(false);
            }
        },
    }
}

/// An optional string at the cursor.
pub fn p_opt_str(input: &Vec<char>, pos: usize) -> (r: Option<(Option<String>, usize)>)
    requires
        pos <= input@.len(),
    ensures
        match sp_opt_str(input@.skip(pos as int)) {
            Some((v, n)) => r matches Some((rv, rp)) && rv.deep_view() == v && rp as int == pos + n
                && pos <= rp <= input@.len(),
            None => r is None,
        },
{
    match expect_lit(input, pos, "null") {
        Some(p) => Some((None, p)),
        None => match p_str(input, pos) {
            Some((v, p)) => Some((Some(v), p)),
            None => None,
        },
    }
}

/// Writes an optional string.
pub fn w_opt_str(out: &mut Vec<char>, o: &Option<String>)
    ensures
        final(out)@ == old(out)@ + enc_opt_str(o.deep_view()),
{
    match o {
        None => w_lit(out, "null"),
        Some(v) => w_str(out, v.as_str()),
    }
}

/// An optional number: `null` or its digits.
pub open spec fn enc_opt_u64(o: Option<u64>) -> Seq<char> {
    match o {
        None => "null"@,
        Some(n) => enc_u64(n),
    }
}

/// An optional number at the front of `s`.
pub open spec fn sp_opt_u64(s: Seq<char>) -> Option<(Option<u64>, int)> {
    if sp_lit(s, "null"@) is Some {
        Some((None, "null"@.len() as int))
    } else {
        match sp_u64(s) {
            Some((v, n)) => Some((Some(v), n)),
            None => None,
        }
    }
}

/// Parsing an encoded optional number yields it back.
pub proof fn lemma_opt_u64_rt(o: Option<u64>, rest: Seq<char>)
    requires
        rest.len() == 0 || !is_digit(rest[0]),
    ensures
        sp_opt_u64(enc_opt_u64(o) + rest) == Some::<(Option<u64>, int)>(
            (o, enc_opt_u64(o).len() as int),
        ),
        enc_opt_u64(o).len() > 0,
{
    reveal_strlit("null");
    let s = enc_opt_u64(o) + rest;
    match o {
        None => {
            lemma_lit_rt("null"@, rest);
        },
        Some(n) => {
            lemma_u64_rt(n, rest);
            lemma_dec_nat_digits(n as nat);
            if sp_lit(s, "null"@) is Some {
                assert(s.take(4)[0] == s[0]);
                assert(s[0] == enc_u64(n)[0]);
                assert(is_digit(enc_u64(n)[0]));
                assert(false);
            }
        },
    }
}

/// An optional number at the cursor.
pub fn p_opt_u64(input: &Vec<char>, pos: usize) -> (r: Option<(Option<u64>, usize)>)
    requires
        pos <= input@.len(),
    ensures
        match sp_opt_u64(input@.skip(pos as int)) {
            Some((v, n)) => r matches Some((rv, rp)) && rv == v && rp as int == pos + n && pos
                <= rp <= input@.len(),
            None => r is None,
        },
{
    match expect_lit(input, pos, "null") {
        Some(p) => Some((None, p)),
        None => match p_u64(input, pos) {
            Some((v, p)) => Some((Some(v), p)),
            None => None,
        },
    }
}

/// Writes an optional number.
pub fn w_opt_u64(out: &mut Vec<char>, o: &Option<u64>)
    ensures
        final(out)@ == old(out)@ + enc_opt_u64(*o),
{
    match o {
        None => w_lit(out, "null"),
        Some(n) => w_u64(out, *n),
    }
}

// --- keyed fields ---

/// A field: its fixed key literal, then its value.
#[verifier::opaque]
pub open spec fn sp_keyed<T>(
    s: Seq<char>,
    key: Seq<char>,
    f: spec_fn(Seq<char>) -> Option<(T, int)>,
) -> Option<(T, int)> {
    match sp_lit(s, key) {
        None => None,
        Some(n) => match f(s.skip(n)) {
            None => None,
            Some((v, m)) => Some((v, n + m)),
        },
    }
}

/// Concatenation is associative.
pub proof fn lemma_assoc<T>(a: Seq<T>, b: Seq<T>, c: Seq<T>)
    ensures
        (a + b) + c == a + (b + c),
{
    assert((a + b) + c =~= a + (b + c));
}

/// Skipping twice is skipping the sum.
pub proof fn lemma_skip_skip<T>(s: Seq<T>, a: int, b: int)
    requires
        0 <= a,
        0 <= b,
        a + b <= s.len(),
    ensures
        s.skip(a).skip(b) == s.skip(a + b),
{
    assert(s.skip(a).skip(b) =~= s.skip(a + b));
}

/// A keyed field parses off the front of its own encoding: the key, then
/// a value whose parser accepts its encoding whatever follows.
pub proof fn lemma_keyed_rt<T>(
    key: Seq<char>,
    f: spec_fn(Seq<char>) -> Option<(T, int)>,
    v: T,
    ev: Seq<char>,
    rest: Seq<char>,
)
    requires
        f(ev + rest) == Some::<(T, int)>((v, ev.len() as int)),
    ensures
        sp_keyed(key + (ev + rest), key, f) == Some::<(T, int)>(
            (v, (key.len() + ev.len()) as int),
        ),
        (key + (ev + rest)).skip((key.len() + ev.len()) as int) == rest,
{
    reveal(sp_keyed);
    let s = key + (ev + rest);
    lemma_lit_rt(key, ev + rest);
    lemma_concat_parts(ev, rest);
    lemma_skip_skip(s, key.len() as int, ev.len() as int);
}

// --- lists ---

/// List items, comma-separated.
pub open spec fn enc_items<T>(l: Seq<T>, enc: spec_fn(T) -> Seq<char>) -> Seq<char>
    decreases l.len(),
{
    if l.len() == 0 {
        Seq::empty()
    } else if l.len() == 1 {
        enc(l[0])
    } else {
        enc(l[0]) + seq![','] + enc_items(l.drop_first(), enc)
    }
}

/// A bracketed, comma-separated list.
pub open spec fn enc_list<T>(l: Seq<T>, enc: spec_fn(T) -> Seq<char>) -> Seq<char> {
    seq!['['] + enc_items(l, enc) + seq![']']
}

/// One or more items followed by the closing bracket, which is consumed.
pub open spec fn sp_items<T>(s: Seq<char>, f: spec_fn(Seq<char>) -> Option<(T, int)>) -> Option<
    (Seq<T>, int),
>
    decreases s.len(),
{
    match f(s) {
        None => None,
        Some((v, n)) => if 0 < n && n < s.len() {
            if s[n] == ']' {
                Some((seq![v], n + 1))
            } else if s[n] == ',' {
                match sp_items(s.skip(n + 1), f) {
                    Some((l2, n2)) => Some((seq![v] + l2, n + 1 + n2)),
                    None => None,
                }
            } else {
                None
            }
        } else {
            None
        },
    }
}

/// A bracketed list at the front of `s`.
pub open spec fn sp_list<T>(s: Seq<char>, f: spec_fn(Seq<char>) -> Option<(T, int)>) -> Option<
    (Seq<T>, int),
>{
    if s.len() >= 2 && s[0] == '[' {
        if s[1] == ']' {
            Some((Seq::empty(), 2))
        } else {
            match sp_items(s.skip(1), f) {
                Some((l, n)) => Some((l, 1 + n)),
                None => None,
            }
        }
    } else {
        None
    }
}

/// An element codec is self-delimiting: its parser reads an encoding back
/// whatever follows it, and its encodings are non-empty and never begin
/// with a closing bracket.
pub open spec fn element_codec_ok<T>(
    l: Seq<T>,
    f: spec_fn(Seq<char>) -> Option<(T, int)>,
    enc: spec_fn(T) -> Seq<char>,
) -> bool {
    &&& forall|v: T, r2: Seq<char>|
        l.contains(v) ==> #[trigger] f(enc(v) + r2) == Some::<(T, int)>(
            (v, enc(v).len() as int),
        )
    &&& forall|v: T| l.contains(v) ==> (#[trigger] enc(v)).len() > 0 && enc(v)[0] != ']'
}

proof fn lemma_items_rt<T>(
    l: Seq<T>,
    f: spec_fn(Seq<char>) -> Option<(T, int)>,
    enc: spec_fn(T) -> Seq<char>,
    rest: Seq<char>,
)
    requires
        l.len() >= 1,
        element_codec_ok(l, f, enc),
    ensures
        sp_items(enc_items(l, enc) + seq![']'] + rest, f) == Some::<(Seq<T>, int)>(
            (l, enc_items(l, enc).len() as int + 1),
        ),
    decreases l.len(),
{
    let s = enc_items(l, enc) + seq![']'] + rest;
    assert(l.contains(l[0]));
    if l.len() == 1 {
        let tail = seq![']'] + rest;
        assert(s =~= enc(l[0]) + tail);
        assert(f(enc(l[0]) + tail) == Some::<(T, int)>((l[0], enc(l[0]).len() as int)));
        let n = enc(l[0]).len() as int;
        assert(s[n] == tail[0]);
        assert(seq![l[0]] =~= l);
    } else {
        let l1 = l.drop_first();
        let tail = seq![','] + (enc_items(l1, enc) + seq![']'] + rest);
        assert(enc_items(l, enc) == enc(l[0]) + seq![','] + enc_items(l1, enc));
        assert(s =~= enc(l[0]) + tail);
        assert(f(enc(l[0]) + tail) == Some::<(T, int)>((l[0], enc(l[0]).len() as int)));
        let n = enc(l[0]).len() as int;
        assert(s[n] == tail[0]);
        assert(s.skip(n + 1) =~= enc_items(l1, enc) + seq![']'] + rest);
        assert forall|v: T| l1.contains(v) implies l.contains(v) by {
            let i = choose|i: int| 0 <= i < l1.len() && l1[i] == v;
            assert(l[i + 1] == v);
        }
        assert forall|v: T, r2: Seq<char>| l1.contains(v) implies #[trigger] f(enc(v) + r2)
            == Some::<(T, int)>((v, enc(v).len() as int)) by {
            assert(l.contains(v));
        }
        assert forall|v: T| l1.contains(v) implies (#[trigger] enc(v)).len() > 0 && enc(v)[0]
            != ']' by {
            assert(l.contains(v));
        }
        lemma_items_rt(l1, f, enc, rest);
        assert(seq![l[0]] + l1 =~= l);
    }
}

/// Parsing an encoded list yields the same elements in the same order.
pub proof fn lemma_list_rt<T>(
    l: Seq<T>,
    f: spec_fn(Seq<char>) -> Option<(T, int)>,
    enc: spec_fn(T) -> Seq<char>,
    rest: Seq<char>,
)
    requires
        element_codec_ok(l, f, enc),
    ensures
        sp_list(enc_list(l, enc) + rest, f) == Some::<(Seq<T>, int)>(
            (l, enc_list(l, enc).len() as int),
        ),
        enc_list(l, enc).len() > 0,
        (enc_list(l, enc) + rest)[0] != ']',
{
    let s = enc_list(l, enc) + rest;
    assert(s[0] == '[');
    if l.len() == 0 {
        assert(s =~= seq!['[', ']'] + rest);
        assert(s[1] == ']');
    } else {
        assert(l.contains(l[0]));
        let tail0 = enc_items(l, enc) + seq![']'] + rest;
        assert(s =~= seq!['['] + tail0);
        assert(s.skip(1) =~= tail0);
        if l.len() == 1 {
            assert(tail0[0] == enc(l[0])[0]);
        } else {
            assert(enc_items(l, enc) == enc(l[0]) + seq![','] + enc_items(l.drop_first(), enc));
            assert(tail0[0] == enc(l[0])[0]);
        }
        assert(s[1] == tail0[0]);
        assert(s[1] != ']');
        lemma_items_rt(l, f, enc, rest);
        assert(enc_list(l, enc).len() == 1 + enc_items(l, enc).len() + 1);
    }
}

} // verus!
