//! The rectangle a pipeline step is scoped to, and parsing it from the
//! textual form `x y width height`.

use vstd::prelude::*;
use vstd::string::StrSliceExecFns;

verus! {

/// A rectangle `(x, y, width, height)` in pixel coordinates; `(x, y)` places
/// its top-left corner.
#[derive(Debug, Clone, Copy)]
pub struct RectInfo(pub (u32, u32, u32, u32));

/// Why a rectangle could not be read from its textual form.
#[derive(Debug, Clone, Copy, PartialEq, Eq, Structural)]
pub enum RectParseError {
    /// A token is not an unsigned 32-bit number.
    Number,
    /// The number of numbers is not four.
    Count,
}

/// The characters with the Unicode `White_Space` property: exactly the
/// separators `char::is_whitespace`, and so `str::split_whitespace`,
/// recognises.
pub open spec fn is_space(c: char) -> bool {
    let u = c as u32;
    ||| u == 0x20
    ||| (0x09 <= u <= 0x0D)
    ||| u == 0x85
    ||| u == 0xA0
    ||| u == 0x1680
    ||| (0x2000 <= u <= 0x200A)
    ||| u == 0x2028
    ||| u == 0x2029
    ||| u == 0x202F
    ||| u == 0x205F
    ||| u == 0x3000
}

/// An ASCII decimal digit.
pub open spec fn is_digit(c: char) -> bool {
    0x30 <= c as u32 <= 0x39
}

/// The length of the leading whitespace-free run of `t`.
pub open spec fn token_len(t: Seq<char>) -> int
    decreases t.len(),
{
    if t.len() == 0 || is_space(t[0]) {
        0
    } else {
        1 + token_len(t.drop_first())
    }
}

/// The leading whitespace-free run never leaves the sequence.
pub proof fn lemma_token_len_bounds(t: Seq<char>)
    ensures
        0 <= token_len(t) <= t.len(),
    decreases t.len(),
{
    if t.len() != 0 && !is_space(t[0]) {
        lemma_token_len_bounds(t.drop_first());
    }
}

/// A run of non-whitespace characters ending at the sequence's end or at a
/// whitespace character is the leading token.
pub proof fn lemma_token_len_at(t: Seq<char>, e: int)
    requires
        0 <= e <= t.len(),
        forall|i: int| 0 <= i < e ==> !is_space(#[trigger] t[i]),
        e == t.len() || is_space(t[e]),
    ensures
        token_len(t) == e,
    decreases e,
{
    if e == 0 {
    } else {
        lemma_token_len_at(t.drop_first(), e - 1);
    }
}

/// The number a digit string denotes, most significant digit first.
pub open spec fn tok_val(d: Seq<char>) -> int
    decreases d.len(),
{
    if d.len() == 0 {
        0
    } else {
        tok_val(d.take(d.len() - 1)) * 10 + (d[d.len() - 1] as u32 - 0x30)
    }
}

/// Appending a digit multiplies the value by ten and adds the digit.
pub proof fn lemma_tok_val_push(p: Seq<char>, c: char)
    ensures
        tok_val(p.push(c)) == tok_val(p) * 10 + (c as u32 - 0x30),
{
    assert(p.push(c).take(p.len() as int) =~= p);
}

/// The digits of a token, one optional leading `+` stripped.
pub open spec fn tok_digits(t: Seq<char>) -> Seq<char> {
    if t.len() > 0 && t[0] == '+' {
        t.drop_first()
    } else {
        t
    }
}

/// Whether a token denotes a `u32`: at least one digit, nothing but digits
/// after the optional sign, and a value within range.
pub open spec fn tok_ok(t: Seq<char>) -> bool {
    let d = tok_digits(t);
    &&& d.len() >= 1
    &&& forall|i: int| 0 <= i < d.len() ==> is_digit(#[trigger] d[i])
    &&& tok_val(d) <= u32::MAX
}

/// The number a token denotes.
pub open spec fn tok_u32(t: Seq<char>) -> int {
    tok_val(tok_digits(t))
}

/// The values of the whitespace-separated tokens of `s`, in order, or
/// nothing as soon as one token is not a `u32`.
pub open spec fn parse_tokens(s: Seq<char>) -> Option<Seq<int>>
    decreases s.len(),
    via parse_tokens_decreases
{
    if s.len() == 0 {
        Some(Seq::empty())
    } else if is_space(s[0]) {
        parse_tokens(s.drop_first())
    } else {
        let tl = token_len(s);
        if tok_ok(s.take(tl)) {
            match parse_tokens(s.skip(tl)) {
                Some(rest) => Some(seq![tok_u32(s.take(tl))] + rest),
                None => None,
            }
        } else {
            None
        }
    }
}

#[via_fn]
proof fn parse_tokens_decreases(s: Seq<char>) {
    lemma_token_len_bounds(s);
}

/// What the textual form denotes: four token values, or the first failure.
pub open spec fn rect_of_text(s: Seq<char>) -> Result<(int, int, int, int), RectParseError> {
    match parse_tokens(s) {
        None => Err(RectParseError::Number),
        Some(vs) => if vs.len() == 4 {
            Ok((vs[0], vs[1], vs[2], vs[3]))
        } else {
            Err(RectParseError::Count)
        },
    }
}

fn is_space_c(c: char) -> (r: bool)
    ensures
        r == is_space(c),
{
    let u = c as u32;
    u == 0x20 || (0x09 <= u && u <= 0x0D) || u == 0x85 || u == 0xA0 || u == 0x1680 || (0x2000 <= u
        && u <= 0x200A) || u == 0x2028 || u == 0x2029 || u == 0x202F || u == 0x205F || u == 0x3000
}

fn is_digit_c(c: char) -> (r: bool)
    ensures
        r == is_digit(c),
{
    let u = c as u32;
    0x30 <= u && u <= 0x39
}

/// The characters of `s`, in order.
fn chars_vec(s: &str) -> (v: Vec<char>)
    ensures
        v@ == s@,
{
    let n = s.unicode_len();
    let mut v: Vec<char> = Vec::new();
    let mut i: usize = 0;
    while i < n
        invariant
            i <= n,
            n == s@.len(),
            v@.len() == i,
            forall|k: int| 0 <= k < i ==> v@[k] == s@[k],
        decreases n - i,
    {
        v.push(s.get_char(i));
        i = i + 1;
    }
    proof {
        assert(v@ =~= s@);
    }
    v
}

impl RectInfo {
    /// Read a rectangle from the character form `x y width height`: four
    /// unsigned numbers separated by Unicode whitespace.
    #[verifier::rlimit(100)]
    fn parse_chars(s: &[char]) -> (r: Result<RectInfo, RectParseError>)
        ensures
            match r {
                Ok(rect) => rect_of_text(s@) == Ok::<(int, int, int, int), RectParseError>(
                    (rect.0.0 as int, rect.0.1 as int, rect.0.2 as int, rect.0.3 as int),
                ),
                Err(e) => rect_of_text(s@) == Err::<(int, int, int, int), RectParseError>(e),
            },
    {
        let n = s.len();
        let ghost ss = s@;
        let mut vals: Vec<u32> = Vec::new();
        let mut p: usize = 0;
        proof {
            assert(ss.skip(0) =~= ss);
            match parse_tokens(ss) {
                Some(rest) => {
                    assert(Seq::new(vals@.len() as nat, |i: int| vals@[i] as int) + rest =~= rest);
                },
                None => {},
            }
        }
        while p < n
            invariant
                p <= n,
                ss.len() == n,
                parse_tokens(ss) == (match parse_tokens(ss.skip(p as int)) {
                    Some(rest) => Some(Seq::new(vals@.len() as nat, |i: int| vals@[i] as int) + rest),
                    None => None::<Seq<int>>,
                }),
            decreases n - p,
        {
            if is_space_c(s[p]) {
                proof {
                    assert(ss.skip(p as int)[0] == ss[p as int]);
                    assert(ss.skip(p as int).drop_first() =~= ss.skip(p as int + 1));
                }
                p = p + 1;
            } else {
                let start = p;
                let mut e = p;
                while e < n && !is_space_c(s[e])
                    invariant
                        start <= e <= n,
                        forall|i: int| start <= i < e ==> !is_space(#[trigger] ss[i]),
                    decreases n - e,
                {
                    e = e + 1;
                }
                let ghost tl = e - start as int;
                let ghost t = ss.subrange(start as int, e as int);
                proof {
                    assert forall|i: int| 0 <= i < tl implies !is_space(
                        #[trigger] ss.skip(start as int)[i],
                    ) by {
                        assert(ss.skip(start as int)[i] == ss[start + i]);
                    }
                    if e < n {
                        assert(ss.skip(start as int)[tl] == ss[e as int]);
                    }
                    lemma_token_len_at(ss.skip(start as int), tl);
                    assert(ss.skip(start as int).take(tl) =~= t);
                }
                let mut q = start;
                if s[q] == '+' {
                    q = q + 1;
                }
                let dstart = q;
                let ghost d = ss.subrange(dstart as int, e as int);
                proof {
                    assert(tok_digits(t) =~= d);
                }
                let mut alldig = true;
                let mut k = dstart;
                while k < e
                    invariant
                        dstart <= k <= e <= n,
                        alldig <==> (forall|i: int| dstart <= i < k ==> is_digit(#[trigger] ss[i])),
                    decreases e - k,
                {
                    if !is_digit_c(s[k]) {
                        alldig = false;
                    }
                    k = k + 1;
                }
                let mut val: u64 = 0;
                let mut bad_digit = false;
                if alldig && dstart < e {
                    let mut k2 = dstart;
                    while k2 < e
                        invariant
                            dstart <= k2 <= e <= n,
                            val <= 42949672959,
                            val <= u32::MAX ==> val as int == tok_val(
                                ss.subrange(dstart as int, k2 as int),
                            ),
                            val > u32::MAX ==> tok_val(ss.subrange(dstart as int, k2 as int))
                                > u32::MAX,
                        decreases e - k2,
                    {
                        let c = s[k2];
                        proof {
                            assert(is_digit(ss[k2 as int]));
                        }
                        if val <= 0xFFFF_FFFF {
                            val = val * 10 + ((c as u32 - 0x30) as u64);
                        }
                        k2 = k2 + 1;
                        proof {
                            assert(ss.subrange(dstart as int, k2 as int) =~= ss.subrange(
                                dstart as int,
                                k2 as int - 1,
                            ).push(ss[k2 as int - 1]));
                            lemma_tok_val_push(
                                ss.subrange(dstart as int, k2 as int - 1),
                                ss[k2 as int - 1],
                            );
                        }
                    }
                } else {
                    bad_digit = true;
                }
                if !bad_digit && val <= 0xFFFF_FFFF {
                    let ghost mapped_old = Seq::new(vals@.len() as nat, |i: int| vals@[i] as int);
                    proof {
                        assert(tok_ok(t));
                        assert(tok_u32(t) == val);
                        assert(ss.skip(start as int).skip(tl) =~= ss.skip(e as int));
                    }
                    vals.push(val as u32);
                    p = e;
                    proof {
                        let mapped_new = Seq::new(vals@.len() as nat, |i: int| vals@[i] as int);
                        assert(mapped_new =~= mapped_old + seq![val as int]);
                        match parse_tokens(ss.skip(e as int)) {
                            Some(rest2) => {
                                assert((mapped_old + seq![tok_u32(t)]) + rest2 =~= mapped_old + (
                                seq![tok_u32(t)] + rest2));
                            },
                            None => {},
                        }
                    }
                } else {
                    proof {
                        assert(!tok_ok(t)) by {
                            if tok_ok(t) {
                                if !(alldig && dstart < e) {
                                    assert(d.len() >= 1);
                                    assert forall|i: int| dstart <= i < e implies is_digit(
                                        #[trigger] ss[i],
                                    ) by {
                                        assert(d[i - dstart as int] == ss[i]);
                                    }
                                    assert(false);
                                }
                            }
                        }
                    }
                    return Err(RectParseError::Number);
                }
            }
        }
        proof {
            assert(ss.skip(n as int) =~= Seq::<char>::empty());
        }
        if vals.len() == 4 {
            let rect = RectInfo((vals[0], vals[1], vals[2], vals[3]));
            Ok(rect)
        } else {
            Err(RectParseError::Count)
        }
    }

    /// Read a rectangle from the textual form `x y width height`: four
    /// unsigned numbers separated by Unicode whitespace, as
    /// `str::split_whitespace` would split them.
    pub fn parse_str(s: &str) -> (r: Result<RectInfo, RectParseError>)
        ensures
            match r {
                Ok(rect) => rect_of_text(s@) == Ok::<(int, int, int, int), RectParseError>(
                    (rect.0.0 as int, rect.0.1 as int, rect.0.2 as int, rect.0.3 as int),
                ),
                Err(e) => rect_of_text(s@) == Err::<(int, int, int, int), RectParseError>(e),
            },
    {
        let chars = chars_vec(s);
        RectInfo::parse_chars(chars.as_slice())
    }
}

impl core::str::FromStr for RectInfo {
    type Err = String;

    /// Read a rectangle from the form `x y width height`.
    fn from_str(s: &str) -> Result<RectInfo, String> {
        match RectInfo::parse_str(s) {
            Ok(rect) => Ok(rect),
            Err(RectParseError::Number) => Err("a token is not a number within u32 range".to_owned()),
            Err(RectParseError::Count) => Err("the number of numbers must be 4.".to_owned()),
        }
    }
}

} // verus!
