//! The number parser: splits a text blob on commas and reads each piece,
//! after trimming surrounding whitespace, as a signed 64-bit integer — base 16
//! where the piece starts with `0x`, base 10 otherwise. Empty pieces are
//! skipped, so leading, trailing and doubled commas are tolerated. The first
//! piece that does not parse fails the whole operation, reporting that piece
//! and why it was rejected; no partial result is returned.

use vstd::prelude::*;
use vstd::string::{StrSliceExecFns, StringExecFns};

verus! {

/// Why a piece was rejected.
#[derive(Clone, Copy, Debug, PartialEq, Eq, Structural)]
pub enum ParseErrorKind {
    /// Nothing followed the `0x` prefix.
    Empty,
    /// A character is not a digit of the expected base, or a sign stands
    /// alone.
    InvalidDigit,
    /// The value exceeds the largest signed 64-bit integer.
    PosOverflow,
    /// The value falls below the smallest signed 64-bit integer.
    NegOverflow,
}

/// A rejected piece (trimmed), with the reason.
#[derive(Clone, Debug, PartialEq, Eq)]
pub struct ParseError {
    pub token: String,
    pub kind: ParseErrorKind,
}

/// Whitespace as trimming understands it: the Unicode white-space characters.
pub open spec fn is_ws(c: char) -> bool {
    let u = c as u32;
    (0x09 <= u && u <= 0x0d) || u == 0x20 || u == 0x85 || u == 0xa0 || u == 0x1680 || (0x2000 <= u
        && u <= 0x200a) || u == 0x2028 || u == 0x2029 || u == 0x202f || u == 0x205f || u == 0x3000
}

/// The value of a digit character; 99 for a character that is a digit in no
/// base of interest.
pub open spec fn digit_val(c: char) -> nat {
    let u = c as u32;
    if 0x30 <= u && u <= 0x39 {
        (u - 0x30) as nat
    } else if 0x61 <= u && u <= 0x66 {
        (u - 0x61 + 10) as nat
    } else if 0x41 <= u && u <= 0x46 {
        (u - 0x41 + 10) as nat
    } else {
        99
    }
}

/// Whether `c` is a digit in base `radix`.
pub open spec fn is_digit(c: char, radix: nat) -> bool {
    digit_val(c) < radix
}

/// Whether every character of `s` is a digit in base `radix`.
pub open spec fn all_digits(s: Seq<char>, radix: nat) -> bool {
    forall|t: int| 0 <= t < s.len() ==> is_digit(#[trigger] s[t], radix)
}

/// The value of a digit string in base `radix`, most significant digit first.
pub open spec fn digits_val(s: Seq<char>, radix: nat) -> nat
    decreases s.len(),
{
    if s.len() == 0 {
        0
    } else {
        digits_val(s.drop_last(), radix) * radix + digit_val(s.last())
    }
}

/// `s` without leading whitespace.
pub open spec fn trim_front(s: Seq<char>) -> Seq<char>
    decreases s.len(),
{
    if s.len() > 0 && is_ws(s[0]) {
        trim_front(s.drop_first())
    } else {
        s
    }
}

/// `s` without trailing whitespace.
pub open spec fn trim_back(s: Seq<char>) -> Seq<char>
    decreases s.len(),
{
    if s.len() > 0 && is_ws(s.last()) {
        trim_back(s.drop_last())
    } else {
        s
    }
}

/// `s` without surrounding whitespace.
pub open spec fn trim_spec(s: Seq<char>) -> Seq<char> {
    trim_back(trim_front(s))
}

/// The index of the first comma of `s`; `s.len()` where there is none.
pub open spec fn first_comma(s: Seq<char>) -> int
    decreases s.len(),
{
    if s.len() == 0 {
        0
    } else if s[0] == ',' {
        0
    } else {
        1 + first_comma(s.drop_first())
    }
}

/// The pieces of `s` between its commas, in order: one more piece than there
/// are commas, each possibly empty.
pub open spec fn split_commas(s: Seq<char>) -> Seq<Seq<char>>
    decreases s.len(),
{
    let i = first_comma(s);
    if 0 <= i && i < s.len() {
        seq![s.take(i)] + split_commas(s.skip(i + 1))
    } else {
        seq![s]
    }
}

/// Reading one sign-stripped-then-digits string in base `radix`: an optional
/// single `+` or `-`, then at least one digit, with the value within the
/// signed 64-bit range.
pub open spec fn parse_signed(s: Seq<char>, radix: nat) -> Result<i64, ParseErrorKind> {
    if s.len() == 0 {
        Err(ParseErrorKind::Empty)
    } else {
        let neg = s[0] == '-';
        let digits = if s[0] == '-' || s[0] == '+' {
            s.drop_first()
        } else {
            s
        };
        if digits.len() == 0 || !all_digits(digits, radix) {
            Err(ParseErrorKind::InvalidDigit)
        } else {
            let v = digits_val(digits, radix);
            if neg {
                if v <= 0x8000_0000_0000_0000 {
                    Ok((0 - v) as i64)
                } else {
                    Err(ParseErrorKind::NegOverflow)
                }
            } else {
                if v <= 0x7fff_ffff_ffff_ffff {
                    Ok(v as i64)
                } else {
                    Err(ParseErrorKind::PosOverflow)
                }
            }
        }
    }
}

/// Reading one trimmed, non-empty piece: base 16 for what follows a `0x`
/// prefix, base 10 otherwise.
pub open spec fn parse_token(t: Seq<char>) -> Result<i64, ParseErrorKind> {
    if t.len() >= 2 && t[0] == '0' && t[1] == 'x' {
        parse_signed(t.skip(2), 16)
    } else {
        parse_signed(t, 10)
    }
}

/// Reading a sequence of pieces in order: empty pieces (after trimming) are
/// skipped, the values of the others are kept in order, and the first
/// rejected piece fails everything, reported trimmed with the reason.
pub open spec fn parse_pieces(ps: Seq<Seq<char>>) -> Result<Seq<i64>, (Seq<char>, ParseErrorKind)>
    decreases ps.len(),
{
    if ps.len() == 0 {
        Ok(Seq::empty())
    } else {
        let t = trim_spec(ps[0]);
        if t.len() == 0 {
            parse_pieces(ps.drop_first())
        } else {
            match parse_token(t) {
                Ok(v) => match parse_pieces(ps.drop_first()) {
                    Ok(vs) => Ok(seq![v] + vs),
                    Err(e) => Err(e),
                },
                Err(k) => Err((t, k)),
            }
        }
    }
}

/// What parsing a whole text blob yields: the integers of its non-empty
/// trimmed comma-separated pieces, in order, or the first rejected piece.
pub open spec fn parse_content_spec(s: Seq<char>) -> Result<
    Seq<i64>,
    (Seq<char>, ParseErrorKind),
> {
    parse_pieces(split_commas(s))
}

/// The non-empty trimmed pieces, in order.
pub open spec fn nonempty_tokens(ps: Seq<Seq<char>>) -> Seq<Seq<char>>
    decreases ps.len(),
{
    if ps.len() == 0 {
        Seq::empty()
    } else {
        let t = trim_spec(ps[0]);
        let rest = nonempty_tokens(ps.drop_first());
        if t.len() == 0 {
            rest
        } else {
            seq![t] + rest
        }
    }
}

proof fn lemma_pieces_all_ok(ps: Seq<Seq<char>>)
    requires
        forall|j: int|
            0 <= j < ps.len() ==> (trim_spec(#[trigger] ps[j]).len() == 0 || parse_token(
                trim_spec(ps[j]),
            ) is Ok),
    ensures
        parse_pieces(ps) is Ok,
        parse_pieces(ps)->Ok_0.len() == nonempty_tokens(ps).len(),
        forall|k: int|
            0 <= k < nonempty_tokens(ps).len() ==> parse_pieces(ps)->Ok_0[k] == parse_token(
                #[trigger] nonempty_tokens(ps)[k],
            )->Ok_0,
    decreases ps.len(),
{
    if ps.len() == 0 {
    } else {
        let rest = ps.drop_first();
        assert(forall|j: int| 0 <= j < rest.len() ==> #[trigger] rest[j] == ps[j + 1]);
        lemma_pieces_all_ok(rest);
        let t = trim_spec(ps[0]);
        if t.len() == 0 {
        } else {
            let v = parse_token(t)->Ok_0;
            let vals = parse_pieces(rest)->Ok_0;
            let toks = nonempty_tokens(rest);
            assert(parse_pieces(ps)->Ok_0 == seq![v] + vals);
            assert(nonempty_tokens(ps) == seq![t] + toks);
            assert((seq![t] + toks)[0] == t);
            assert((seq![v] + vals)[0] == v);
            assert(forall|k: int| 1 <= k < toks.len() + 1 ==> (seq![t] + toks)[k] == toks[k - 1]);
            assert(forall|k: int| 1 <= k < vals.len() + 1 ==> (seq![v] + vals)[k] == vals[k - 1]);
        }
    }
}

/// One integer per non-empty trimmed piece, in the original order: where
/// every non-empty trimmed comma-separated piece of the input parses as a
/// number, parsing the whole input succeeds, returns exactly as many integers
/// as there are such pieces, and the integer at each position is the value of
/// the piece at the same position.
pub proof fn lemma_one_integer_per_token(s: Seq<char>)
    requires
        forall|j: int|
            0 <= j < split_commas(s).len() ==> (trim_spec(
                #[trigger] split_commas(s)[j],
            ).len() == 0 || parse_token(trim_spec(split_commas(s)[j])) is Ok),
    ensures
        parse_content_spec(s) is Ok,
        parse_content_spec(s)->Ok_0.len() == nonempty_tokens(split_commas(s)).len(),
        forall|k: int|
            0 <= k < nonempty_tokens(split_commas(s)).len() ==> parse_content_spec(s)->Ok_0[k]
                == parse_token(#[trigger] nonempty_tokens(split_commas(s))[k])->Ok_0,
{
    lemma_pieces_all_ok(split_commas(s));
}

/// Values already parsed, put in front of the outcome of the rest.
spec fn combine(acc: Seq<i64>, r: Result<Seq<i64>, (Seq<char>, ParseErrorKind)>) -> Result<
    Seq<i64>,
    (Seq<char>, ParseErrorKind),
> {
    match r {
        Ok(vs) => Ok(acc + vs),
        Err(e) => Err(e),
    }
}

proof fn lemma_combine_empty(r: Result<Seq<i64>, (Seq<char>, ParseErrorKind)>)
    ensures
        combine(Seq::empty(), r) == r,
{
    match r {
        Ok(vs) => {
            assert(Seq::<i64>::empty() + vs =~= vs);
        },
        Err(e) => {
        },
    }
}

/// Where no comma stands before `k` and one stands at `k` (or `k` is the
/// end), the first comma is at `k`.
proof fn lemma_first_comma_at(s: Seq<char>, k: int)
    requires
        0 <= k <= s.len(),
        forall|t: int| 0 <= t < k ==> s[t] != ',',
        k < s.len() ==> s[k] == ',',
    ensures
        first_comma(s) == k,
    decreases k,
{
    if k == 0 {
    } else {
        lemma_first_comma_at(s.drop_first(), k - 1);
    }
}

/// Whether `c` is a Unicode white-space character.
fn is_ws_exec(c: char) -> (r: bool)
    ensures
        r == is_ws(c),
{
    let u = c as u32;
    (0x09 <= u && u <= 0x0d) || u == 0x20 || u == 0x85 || u == 0xa0 || u == 0x1680 || (0x2000 <= u
        && u <= 0x200a) || u == 0x2028 || u == 0x2029 || u == 0x202f || u == 0x205f || u == 0x3000
}

/// The value of `c` as a digit; 99 where it is none.
fn digit_val_exec(c: char) -> (d: u64)
    ensures
        d as nat == digit_val(c),
{
    let u = c as u32;
    if 0x30 <= u && u <= 0x39 {
        (u - 0x30) as u64
    } else if 0x61 <= u && u <= 0x66 {
        (u - 0x61 + 10) as u64
    } else if 0x41 <= u && u <= 0x46 {
        (u - 0x41 + 10) as u64
    } else {
        99
    }
}

/// Narrows `[lo, hi)` to the whitespace-trimmed part of that range.
fn trim_range(content: &str, lo: usize, hi: usize) -> (r: (usize, usize))
    requires
        lo <= hi <= content@.len(),
    ensures
        lo <= r.0 <= r.1 <= hi,
        content@.subrange(r.0 as int, r.1 as int) == trim_spec(
            content@.subrange(lo as int, hi as int),
        ),
{
    let mut a = lo;
    while a < hi && is_ws_exec(content.get_char(a))
        invariant
            lo <= a <= hi <= content@.len(),
            trim_front(content@.subrange(lo as int, hi as int)) == trim_front(
                content@.subrange(a as int, hi as int),
            ),
        decreases hi - a,
    {
        proof {
            assert(content@.subrange(a as int, hi as int).drop_first() =~= content@.subrange(
                a + 1,
                hi as int,
            ));
        }
        a += 1;
    }
    proof {
        assert(trim_front(content@.subrange(lo as int, hi as int)) == content@.subrange(
            a as int,
            hi as int,
        ));
    }
    let mut b = hi;
    while b > a && is_ws_exec(content.get_char(b - 1))
        invariant
            lo <= a <= b <= hi <= content@.len(),
            trim_back(content@.subrange(a as int, hi as int)) == trim_back(
                content@.subrange(a as int, b as int),
            ),
        decreases b - a,
    {
        proof {
            assert(content@.subrange(a as int, b as int).drop_last() =~= content@.subrange(
                a as int,
                b - 1,
            ));
        }
        b -= 1;
    }
    proof {
        assert(trim_back(content@.subrange(a as int, b as int)) == content@.subrange(
            a as int,
            b as int,
        ));
    }
    (a, b)
}

/// The value of a prefix of a digit string never exceeds the whole string's.
proof fn lemma_digits_val_prefix(s: Seq<char>, j: int, radix: nat)
    requires
        0 <= j <= s.len(),
        radix >= 1,
    ensures
        digits_val(s.take(j), radix) <= digits_val(s, radix),
    decreases s.len() - j,
{
    if j == s.len() {
        assert(s.take(j) =~= s);
    } else {
        lemma_digits_val_prefix(s, j + 1, radix);
        assert(s.take(j + 1).drop_last() =~= s.take(j));
        let a = digits_val(s.take(j), radix);
        assert(digits_val(s.take(j + 1), radix) == a * radix + digit_val(s.take(j + 1).last()));
        assert(a * radix >= a) by (nonlinear_arith)
            requires
                radix >= 1,
                a >= 0,
        ;
    }
}

/// Reads the digits-with-optional-sign part of `t` from position `off` on, in
/// base `radix`.
#[verifier::loop_isolation(false)]
fn parse_signed_exec(t: &str, off: usize, radix: u64) -> (r: Result<i64, ParseErrorKind>)
    requires
        off <= t@.len(),
        radix == 10 || radix == 16,
    ensures
        r == parse_signed(t@.skip(off as int), radix as nat),
{
    let ghost s = t@.skip(off as int);
    let len = t.unicode_len();
    if off == len {
        proof {
            assert(s.len() == 0);
        }
        return Err(ParseErrorKind::Empty);
    }
    let c0 = t.get_char(off);
    let neg = c0 == '-';
    let p: usize = if c0 == '-' || c0 == '+' {
        off + 1
    } else {
        off
    };
    let ghost digits = t@.skip(p as int);
    proof {
        assert(s[0] == t@[off as int]);
        if c0 == '-' || c0 == '+' {
            assert(s.drop_first() =~= digits);
        } else {
            assert(s =~= digits);
        }
    }
    if p == len {
        proof {
            assert(digits.len() == 0);
        }
        return Err(ParseErrorKind::InvalidDigit);
    }
    // First pass: every character must be a digit of the base.
    let mut k: usize = p;
    while k < len
        invariant
            p <= k <= len,
            len == t@.len(),
            digits == t@.skip(p as int),
            forall|u: int| 0 <= u < k - p ==> is_digit(#[trigger] digits[u], radix as nat),
        decreases len - k,
    {
        let d = digit_val_exec(t.get_char(k));
        if d >= radix {
            proof {
                assert(digits[k - p] == t@[k as int]);
                assert(!is_digit(digits[k - p], radix as nat));
            }
            return Err(ParseErrorKind::InvalidDigit);
        }
        proof {
            assert(digits[k - p] == t@[k as int]);
        }
        k += 1;
    }
    proof {
        assert(all_digits(digits, radix as nat));
    }
    // Second pass: accumulate, stopping as soon as the value leaves the
    // representable range.
    let limit: u64 = if neg {
        0x8000_0000_0000_0000
    } else {
        0x7fff_ffff_ffff_ffff
    };
    let mut acc: u64 = 0;
    let mut m: usize = p;
    proof {
        assert(digits.take(0) =~= Seq::<char>::empty());
    }
    while m < len
        invariant
            p <= m <= len,
            acc as nat == digits_val(digits.take(m - p), radix as nat),
            acc <= limit,
        decreases len - m,
    {
        let d = digit_val_exec(t.get_char(m));
        proof {
            assert(digits[m - p] == t@[m as int]);
            assert(is_digit(digits[m - p], radix as nat));
            assert(digits.take(m - p + 1).drop_last() =~= digits.take(m - p));
            assert(digits.take(m - p + 1).last() == digits[m - p]);
            assert((acc as u128) * (radix as u128) == if radix == 10 {
                (acc as u128) * 10
            } else {
                (acc as u128) * 16
            });
        }
        let wide: u128 = (acc as u128) * (radix as u128) + (d as u128);
        proof {
            assert(digits_val(digits.take(m - p + 1), radix as nat) == digits_val(
                digits.take(m - p),
                radix as nat,
            ) * (radix as nat) + digit_val(digits[m - p]));
            assert((acc as nat) * (radix as nat) == if radix == 10 {
                (acc as nat) * 10
            } else {
                (acc as nat) * 16
            });
            assert(wide as nat == digits_val(digits.take(m - p + 1), radix as nat));
        }
        if wide > limit as u128 {
            proof {
                lemma_digits_val_prefix(digits, m - p + 1, radix as nat);
            }
            if neg {
                return Err(ParseErrorKind::NegOverflow);
            } else {
                return Err(ParseErrorKind::PosOverflow);
            }
        }
        acc = wide as u64;
        m += 1;
    }
    proof {
        assert(digits.take(m - p) =~= digits);
    }
    if neg {
        Ok((-(acc as i128)) as i64)
    } else {
        Ok(acc as i64)
    }
}

/// Reads one trimmed, non-empty piece: base 16 after a `0x` prefix, base 10
/// otherwise.
fn parse_token_exec(t: &str) -> (r: Result<i64, ParseErrorKind>)
    requires
        t@.len() > 0,
    ensures
        r == parse_token(t@),
{
    let len = t.unicode_len();
    if len >= 2 && t.get_char(0) == '0' && t.get_char(1) == 'x' {
        let r = parse_signed_exec(t, 2, 16);
        proof {
            assert(t@.skip(2) == t@.skip(2int));
        }
        r
    } else {
        let r = parse_signed_exec(t, 0, 10);
        proof {
            assert(t@.skip(0) =~= t@);
        }
        r
    }
}

/// Parses a comma-separated text blob into the signed 64-bit integers of its
/// non-empty trimmed pieces, in their original order — one integer per such
/// piece. A piece starting with `0x` is read base 16, any other base 10 with
/// an optional sign; surrounding whitespace and empty pieces are tolerated.
/// Fails on the first piece that does not parse, reporting that piece
/// (trimmed) and the reason, and returns no partial result.
#[verifier::loop_isolation(false)]
pub fn parse_text_content(content: &str) -> (r: Result<Vec<i64>, ParseError>)
    ensures
        match r {
            Ok(v) => parse_content_spec(content@) == Ok::<Seq<i64>, (Seq<char>, ParseErrorKind)>(
                v@,
            ),
            Err(e) => parse_content_spec(content@) == Err::<Seq<i64>, (Seq<char>, ParseErrorKind)>(
                (e.token@, e.kind),
            ),
        },
{
    let n = content.unicode_len();
    let mut numbers: Vec<i64> = Vec::new();
    let mut start: usize = 0;
    let mut more = true;
    proof {
        lemma_combine_empty(parse_pieces(split_commas(content@)));
        assert(content@.skip(0) =~= content@);
    }
    while more
        invariant
            n == content@.len(),
            more ==> start <= n,
            more ==> parse_content_spec(content@) == combine(
                numbers@,
                parse_pieces(split_commas(content@.skip(start as int))),
            ),
            !more ==> parse_content_spec(content@) == Ok::<Seq<i64>, (Seq<char>, ParseErrorKind)>(
                numbers@,
            ),
        decreases n - start + (if more {
            1int
        } else {
            0int
        }),
    {
        let ghost nums0 = numbers@;
        let ghost ss = content@.skip(start as int);
        // Find the end of the current piece.
        let mut j = start;
        while j < n && content.get_char(j) != ','
            invariant
                start <= j <= n,
                forall|t: int| start <= t < j ==> content@[t] != ',',
            decreases n - j,
        {
            j += 1;
        }
        let ghost piece = content@.subrange(start as int, j as int);
        let ghost rest: Seq<Seq<char>> = if j < n {
            split_commas(content@.skip(j + 1))
        } else {
            Seq::empty()
        };
        proof {
            assert(forall|t: int| 0 <= t < j - start ==> ss[t] == content@[start + t]);
            lemma_first_comma_at(ss, j - start);
            assert(ss.take(j - start) =~= piece);
            if j < n {
                assert(ss.skip(j - start + 1) =~= content@.skip(j + 1));
                assert(split_commas(ss) == seq![piece] + rest);
                assert((seq![piece] + rest).drop_first() =~= rest);
                assert((seq![piece] + rest)[0] == piece);
            } else {
                assert(ss =~= piece);
                assert(split_commas(ss) == seq![piece]);
                assert((seq![piece]).drop_first() =~= rest);
                assert((seq![piece])[0] == piece);
            }
        }
        // Trim and read the piece.
        let (a, b) = trim_range(content, start, j);
        if a < b {
            let tok = content.substring_char(a, b);
            proof {
                assert(tok@ == trim_spec(piece));
                assert(trim_spec(piece).len() > 0);
            }
            match parse_token_exec(tok) {
                Ok(v) => {
                    numbers.push(v);
                    proof {
                        assert(numbers@ == nums0.push(v));
                        match parse_pieces(rest) {
                            Ok(vs) => {
                                assert(nums0 + (seq![v] + vs) =~= numbers@ + vs);
                                assert(combine(nums0, parse_pieces(split_commas(ss))) == combine(
                                    numbers@,
                                    parse_pieces(rest),
                                ));
                            },
                            Err(e) => {
                                assert(combine(nums0, parse_pieces(split_commas(ss))) == combine(
                                    numbers@,
                                    parse_pieces(rest),
                                ));
                            },
                        }
                    }
                },
                Err(kind) => {
                    proof {
                        assert(parse_pieces(split_commas(ss)) == Err::<
                            Seq<i64>,
                            (Seq<char>, ParseErrorKind),
                        >((trim_spec(piece), kind)));
                    }
                    let token = tok.to_owned();
                    return Err(ParseError { token, kind });
                },
            }
        } else {
            proof {
                assert(trim_spec(piece).len() == 0);
                assert(parse_pieces(split_commas(ss)) == parse_pieces(rest));
            }
        }
        // Step to the next piece, or finish.
        if j < n {
            start = j + 1;
        } else {
            more = false;
            proof {
                assert(parse_pieces(rest) == Ok::<Seq<i64>, (Seq<char>, ParseErrorKind)>(
                    Seq::empty(),
                ));
                assert(numbers@ + Seq::<i64>::empty() =~= numbers@);
            }
        }
    }
    Ok(numbers)
}

} // verus!
