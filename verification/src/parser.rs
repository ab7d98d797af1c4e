//! Compiles the textual notation into a [`Cycle`](crate::cycle::Cycle).
//!
//! The notation is deliberately small.  Channels are separated by `,`, steps
//! of a channel by spaces; a channel with `n` steps gives each step the span
//! `[i/n, (i+1)/n)` of one cycle.  A step is either one template or a row of
//! alternatives `<a|b|c>` played in turn, one per pass.  A template is a
//! body - `~` for a rest, `_` for a hold, an integer, a decimal number, a
//! pitch such as `c4` or `f#3`, a chord such as `c4'maj`, or a bare name -
//! followed by `:`-separated inline targets (`:2`, `:v0.5`, `:d0.25`), and
//! may end in `?` to play only by chance.

use vstd::prelude::*;
use vstd::string::StrSliceExecFns;

use crate::cycle::{
    channels_model, clone_target, cycle_wf, steps_view, templates_view, CycleModel, EventTemplate,
    Step, StepModel, TemplateModel,
};
use crate::fraction::{frac_wf, Fraction};
use crate::resolver::spec_clamp_key;
use crate::value::{targets_view, CycleTarget, CycleValue, TargetModel, ValueModel};

verus! {

/// The index of the first occurrence of `sep`, or the length when absent.
pub open spec fn find_char(s: Seq<char>, sep: char) -> int
    decreases s.len(),
{
    if s.len() == 0 {
        0
    } else if s[0] == sep {
        0
    } else {
        1 + find_char(s.skip(1), sep)
    }
}

/// A scan that stopped at the first separator found `find_char`.
pub proof fn lemma_find_char_of_scan(s: Seq<char>, sep: char, p: int)
    requires
        0 <= p <= s.len(),
        forall|j: int| 0 <= j < p ==> s[j] != sep,
        p < s.len() ==> s[p] == sep,
    ensures
        find_char(s, sep) == p,
    decreases p,
{
    if p == 0 {
    } else {
        assert(forall|j: int| 0 <= j < s.len() - 1 ==> s.skip(1)[j] == s[j + 1]);
        lemma_find_char_of_scan(s.skip(1), sep, p - 1);
    }
}

/// The segments of `s` between occurrences of `sep`, in order.  There is
/// always at least one segment; separators at the ends give empty segments.
pub open spec fn spec_split(s: Seq<char>, sep: char) -> Seq<Seq<char>>
    decreases s.len(),
{
    let i = find_char(s, sep);
    if i < 0 || i >= s.len() {
        seq![s]
    } else {
        seq![s.take(i)] + spec_split(s.skip(i + 1), sep)
    }
}

/// The views of a list of owned strings, in order.
pub open spec fn strings_view(v: Seq<String>) -> Seq<Seq<char>> {
    Seq::new(v.len(), |i: int| v[i]@)
}

/// Splits a string at every occurrence of `sep`.
pub fn split_str(s: &str, sep: char) -> (r: Vec<String>)
    ensures
        strings_view(r@) == spec_split(s@, sep),
{
    let n = s.unicode_len();
    let mut parts: Vec<String> = Vec::new();
    let mut pos: usize = 0;
    let mut done = false;
    proof {
        assert(s@.skip(0int) =~= s@);
        assert(strings_view(parts@) + spec_split(s@, sep) =~= spec_split(s@, sep));
    }
    while !done
        invariant
            pos <= n + 1,
            n == s@.len(),
            !done ==> pos <= n,
            !done ==> spec_split(s@, sep) =~= strings_view(parts@) + spec_split(
                s@.skip(pos as int),
                sep,
            ),
            done ==> spec_split(s@, sep) =~= strings_view(parts@),
        decreases (if done {
            0int
        } else {
            1int
        }) + n - pos,
    {
        let mut i: usize = pos;
        while i < n && s.get_char(i) != sep
            invariant
                n == s@.len(),
                pos <= i <= n,
                forall|j: int| pos <= j < i ==> s@[j] != sep,
            decreases n - i,
        {
            i = i + 1;
        }
        let ghost tail = s@.skip(pos as int);
        proof {
            assert forall|j: int| 0 <= j < i - pos implies tail[j] != sep by {
                assert(tail[j] == s@[pos + j]);
            }
            if i < n {
                assert(tail[i - pos] == s@[i as int]);
            }
            lemma_find_char_of_scan(tail, sep, i - pos as int);
        }
        let seg = s.substring_char(pos, i).to_owned();
        proof {
            assert(seg@ =~= tail.take(i - pos as int));
        }
        parts.push(seg);
        if i < n {
            proof {
                assert(tail.skip(i - pos as int + 1) =~= s@.skip(i as int + 1));
                assert(spec_split(tail, sep) == seq![tail.take(i - pos as int)] + spec_split(
                    s@.skip(i as int + 1),
                    sep,
                ));
                assert(strings_view(parts@) =~= strings_view(parts@.drop_last()) + seq![seg@]);
            }
            pos = i + 1;
        } else {
            proof {
                assert(tail.take(i - pos as int) =~= tail);
                assert(spec_split(tail, sep) =~= seq![tail]);
                assert(strings_view(parts@) =~= strings_view(parts@.drop_last()) + seq![seg@]);
            }
            done = true;
        }
    }
    parts
}

/// The same segments with the empty ones removed.
pub open spec fn drop_empty(parts: Seq<Seq<char>>) -> Seq<Seq<char>>
    decreases parts.len(),
{
    if parts.len() == 0 {
        Seq::empty()
    } else if parts[0].len() == 0 {
        drop_empty(parts.skip(1))
    } else {
        seq![parts[0]] + drop_empty(parts.skip(1))
    }
}

/// Keeps the non-empty strings, in order.
pub fn keep_nonempty(parts: Vec<String>) -> (r: Vec<String>)
    ensures
        strings_view(r@) == drop_empty(strings_view(parts@)),
{
    let mut out: Vec<String> = Vec::new();
    let mut i: usize = 0;
    proof {
        assert(strings_view(parts@).skip(0int) =~= strings_view(parts@));
        assert(strings_view(out@) + drop_empty(strings_view(parts@)) =~= drop_empty(
            strings_view(parts@),
        ));
    }
    while i < parts.len()
        invariant
            i <= parts@.len(),
            drop_empty(strings_view(parts@)) =~= strings_view(out@) + drop_empty(
                strings_view(parts@).skip(i as int),
            ),
        decreases parts@.len() - i,
    {
        let ghost rest = strings_view(parts@).skip(i as int);
        proof {
            assert(rest[0] == parts@[i as int]@);
            assert(rest.skip(1) =~= strings_view(parts@).skip(i as int + 1));
        }
        if parts[i].as_str().unicode_len() > 0 {
            let item = parts[i].clone();
            out.push(item);
            proof {
                assert(strings_view(out@) =~= strings_view(out@.drop_last()) + seq![
                    parts@[i as int]@,
                ]);
            }
        }
        i = i + 1;
    }
    proof {
        assert(strings_view(parts@).skip(parts@.len() as int) =~= Seq::<Seq<char>>::empty());
    }
    out
}

/// A decimal digit.
pub open spec fn is_digit(c: char) -> bool {
    '0' <= c && c <= '9'
}

/// The value of a decimal digit.
pub open spec fn digit_val(c: char) -> int {
    c as int - '0' as int
}

/// A letter.
pub open spec fn is_alpha(c: char) -> bool {
    ('a' <= c && c <= 'z') || ('A' <= c && c <= 'Z')
}

/// A character allowed in a bare name or a chord mode.
pub open spec fn is_name_char(c: char) -> bool {
    is_alpha(c) || is_digit(c) || c == '_' || c == '#'
}

/// Only decimal digits.
pub open spec fn all_digits(s: Seq<char>) -> bool {
    forall|i: int| 0 <= i < s.len() ==> is_digit(#[trigger] s[i])
}

/// Only name characters.
pub open spec fn all_name_chars(s: Seq<char>) -> bool {
    forall|i: int| 0 <= i < s.len() ==> is_name_char(#[trigger] s[i])
}

/// Ten to the `k`.
pub open spec fn pow10(k: int) -> int
    decreases k,
{
    if k <= 0 {
        1
    } else {
        10 * pow10(k - 1)
    }
}

/// The small powers of ten, written out.
pub proof fn lemma_pow10_values()
    ensures
        pow10(0) == 1,
        pow10(1) == 10,
        pow10(2) == 100,
        pow10(3) == 1000,
        pow10(4) == 10000,
        pow10(5) == 100000,
        pow10(6) == 1000000,
        pow10(7) == 10000000,
        pow10(8) == 100000000,
        pow10(9) == 1000000000,
{
    assert(pow10(0) == 1);
    assert(pow10(1) == 10);
    assert(pow10(2) == 100);
    assert(pow10(3) == 1000);
    assert(pow10(4) == 10000);
    assert(pow10(5) == 100000);
    assert(pow10(6) == 1000000);
    assert(pow10(7) == 10000000);
    assert(pow10(8) == 100000000);
    assert(pow10(9) == 1000000000);
}

/// Powers of ten are positive.
pub proof fn lemma_pow10_pos(a: int)
    ensures
        pow10(a) >= 1,
    decreases a,
{
    if a > 0 {
        lemma_pow10_pos(a - 1);
    }
}

/// Powers of ten grow with the exponent.
pub proof fn lemma_pow10_mono(a: int, b: int)
    requires
        a <= b,
    ensures
        pow10(a) <= pow10(b),
        pow10(a) >= 1,
    decreases b - a,
{
    lemma_pow10_pos(a);
    if a < b {
        lemma_pow10_mono(a, b - 1);
        lemma_pow10_pos(b - 1);
    }
}

/// Powers of ten multiply by adding exponents.
pub proof fn lemma_pow10_mul(a: int, b: int)
    requires
        a >= 0,
        b >= 0,
    ensures
        pow10(a) * pow10(b) == pow10(a + b),
    decreases b,
{
    if b == 0 {
    } else {
        lemma_pow10_mul(a, b - 1);
        assert(pow10(a) * (10 * pow10(b - 1)) == 10 * (pow10(a) * pow10(b - 1)))
            by (nonlinear_arith);
    }
}

/// The number a digit string denotes, most significant digit first.
pub open spec fn digits_val(s: Seq<char>) -> int
    decreases s.len(),
{
    if s.len() == 0 {
        0
    } else {
        digits_val(s.take(s.len() - 1)) * 10 + digit_val(s[s.len() - 1])
    }
}

/// A digit string of length `n` denotes a value below ten to the `n`.
pub proof fn lemma_digits_val_bound(s: Seq<char>)
    requires
        all_digits(s),
    ensures
        0 <= digits_val(s) < pow10(s.len() as int),
    decreases s.len(),
{
    if s.len() == 0 {
    } else {
        assert(all_digits(s.take(s.len() - 1)));
        lemma_digits_val_bound(s.take(s.len() - 1));
        assert(is_digit(s[s.len() - 1]));
    }
}

/// An unsigned integer literal: one to nine digits.
pub open spec fn spec_parse_uint(s: Seq<char>) -> Option<int> {
    if 1 <= s.len() <= 9 && all_digits(s) {
        Some(digits_val(s))
    } else {
        None
    }
}

/// Reads an unsigned integer literal of at most nine digits.
pub fn parse_digits(s: &str) -> (r: Option<u32>)
    ensures
        (match (r, spec_parse_uint(s@)) {
            (Some(v), Some(x)) => v as int == x && v < 1000000000,
            (None, None) => true,
            _ => false,
        }),
{
    let n = s.unicode_len();
    if n < 1 || n > 9 {
        return None;
    }
    let mut acc: u32 = 0;
    let mut i: usize = 0;
    while i < n
        invariant
            n == s@.len(),
            1 <= n <= 9,
            i <= n,
            all_digits(s@.take(i as int)),
            acc as int == digits_val(s@.take(i as int)),
            (acc as int) < pow10(i as int),
        decreases n - i,
    {
        let c = s.get_char(i);
        if !(c >= '0' && c <= '9') {
            assert(!is_digit(s@[i as int]));
            return None;
        }
        let d: u32 = (c as u32) - ('0' as u32);
        proof {
            lemma_pow10_mono(i as int, 8);
            lemma_pow10_values();
            assert((acc as int) * 10 + d < pow10(i as int + 1));
        }
        acc = acc * 10 + d;
        proof {
            assert(s@.take(i as int + 1).take(i as int) =~= s@.take(i as int));
            assert(s@.take(i as int + 1)[i as int] == s@[i as int]);
        }
        i = i + 1;
    }
    proof {
        assert(s@.take(n as int) =~= s@);
        lemma_pow10_mono(n as int, 9);
        lemma_pow10_values();
    }
    Some(acc)
}

/// A signed integer literal: an optional minus and up to nine digits.
pub open spec fn spec_parse_int(s: Seq<char>) -> Option<int> {
    if s.len() >= 1 && s[0] == '-' {
        match spec_parse_uint(s.skip(1)) {
            Some(v) => Some(-v),
            None => None,
        }
    } else {
        spec_parse_uint(s)
    }
}

/// Reads a signed integer literal.
pub fn parse_int(s: &str) -> (r: Option<i32>)
    ensures
        (match (r, spec_parse_int(s@)) {
            (Some(v), Some(x)) => v as int == x,
            (None, None) => true,
            _ => false,
        }),
{
    let n = s.unicode_len();
    if n >= 1 && s.get_char(0) == '-' {
        let rest = s.substring_char(1, n);
        proof {
            assert(rest@ =~= s@.skip(1));
        }
        match parse_digits(rest) {
            Some(v) => Some(-(v as i32)),
            None => None,
        }
    } else {
        match parse_digits(s) {
            Some(v) => Some(v as i32),
            None => None,
        }
    }
}

/// An unsigned number: an integer, or a decimal whose exact value becomes a
/// fraction over a power of ten; at most nine digits in all.
pub open spec fn spec_parse_unsigned_number(s: Seq<char>) -> Option<Fraction> {
    let d = find_char(s, '.');
    if d >= s.len() {
        match spec_parse_uint(s) {
            Some(v) => Some(Fraction { num: v as i32, den: 1 }),
            None => None,
        }
    } else {
        let ip = s.take(d);
        let fp = s.skip(d + 1);
        if ip.len() >= 1 && fp.len() >= 1 && ip.len() + fp.len() <= 9 && all_digits(ip)
            && all_digits(fp) {
            Some(
                Fraction {
                    num: (digits_val(ip) * pow10(fp.len() as int) + digits_val(fp)) as i32,
                    den: pow10(fp.len() as int) as i32,
                },
            )
        } else {
            None
        }
    }
}

/// A number with an optional leading minus.
pub open spec fn spec_parse_number(s: Seq<char>) -> Option<Fraction> {
    if s.len() >= 1 && s[0] == '-' {
        match spec_parse_unsigned_number(s.skip(1)) {
            Some(f) => Some(Fraction { num: (-f.num as int) as i32, den: f.den }),
            None => None,
        }
    } else {
        spec_parse_unsigned_number(s)
    }
}

/// Ten to the `k`, as a machine integer.
fn pow10_exec(k: usize) -> (r: u64)
    requires
        k <= 9,
    ensures
        r as int == pow10(k as int),
        r >= 1,
{
    let mut r: u64 = 1;
    let mut i: usize = 0;
    while i < k
        invariant
            i <= k <= 9,
            r as int == pow10(i as int),
        decreases k - i,
    {
        proof {
            lemma_pow10_mono(i as int, 8);
            lemma_pow10_values();
        }
        r = r * 10;
        i = i + 1;
    }
    proof {
        lemma_pow10_mono(0, k as int);
    }
    r
}

/// Reads an unsigned number into an exact fraction.
pub fn parse_unsigned_number(s: &str) -> (r: Option<Fraction>)
    ensures
        (match (r, spec_parse_unsigned_number(s@)) {
            (Some(v), Some(x)) => v == x && frac_wf(v) && 0 <= v.num < 1000000000,
            (None, None) => true,
            _ => false,
        }),
{
    let n = s.unicode_len();
    let mut d: usize = 0;
    while d < n && s.get_char(d) != '.'
        invariant
            n == s@.len(),
            d <= n,
            forall|j: int| 0 <= j < d ==> s@[j] != '.',
        decreases n - d,
    {
        d = d + 1;
    }
    proof {
        lemma_find_char_of_scan(s@, '.', d as int);
    }
    if d == n {
        match parse_digits(s) {
            Some(v) => {
                proof {
                    lemma_pow10_values();
                }
                Some(Fraction::new(v as i32, 1))
            },
            None => None,
        }
    } else {
        let ip = s.substring_char(0, d);
        let fp = s.substring_char(d + 1, n);
        proof {
            assert(ip@ =~= s@.take(d as int));
            assert(fp@ =~= s@.skip(d as int + 1));
        }
        if d >= 1 && n - d - 1 >= 1 && n - 1 <= 9 {
            match (parse_digits(ip), parse_digits(fp)) {
                (Some(iv), Some(fv)) => {
                    let fl = n - d - 1;
                    let den = pow10_exec(fl);
                    proof {
                        lemma_digits_val_bound(ip@);
                        lemma_digits_val_bound(fp@);
                        lemma_pow10_mul(d as int, fl as int);
                        lemma_pow10_mono(d as int + fl as int, 9);
                        lemma_pow10_values();
                        assert((iv as int) * (den as int) + (fv as int) < pow10(
                            d as int + fl as int,
                        )) by (nonlinear_arith)
                            requires
                                (iv as int) < pow10(d as int),
                                (fv as int) < pow10(fl as int),
                                den as int == pow10(fl as int),
                                pow10(d as int) * pow10(fl as int) == pow10(d as int + fl as int),
                                pow10(fl as int) >= 1,
                        ;
                        assert(den as int <= 1000000000) by {
                            lemma_pow10_mono(fl as int, 9);
                        }
                    }
                    let num: u64 = (iv as u64) * den + (fv as u64);
                    Some(Fraction::new(num as i32, den as i32))
                },
                _ => None,
            }
        } else {
            proof {
                if spec_parse_unsigned_number(s@) is Some {
                    assert(s@.take(d as int).len() >= 1 && s@.skip(d as int + 1).len() >= 1
                        && s@.take(d as int).len() + s@.skip(d as int + 1).len() <= 9);
                    assert(false);
                }
            }
            None
        }
    }
}

/// Reads a number with an optional leading minus into an exact fraction.
pub fn parse_number(s: &str) -> (r: Option<Fraction>)
    ensures
        (match (r, spec_parse_number(s@)) {
            (Some(v), Some(x)) => v == x && frac_wf(v),
            (None, None) => true,
            _ => false,
        }),
{
    let n = s.unicode_len();
    if n >= 1 && s.get_char(0) == '-' {
        let rest = s.substring_char(1, n);
        proof {
            assert(rest@ =~= s@.skip(1));
        }
        match parse_unsigned_number(rest) {
            Some(f) => Some(Fraction::new(-f.num(), f.den())),
            None => None,
        }
    } else {
        parse_unsigned_number(s)
    }
}

/// The key offset of a pitch letter within its octave.
pub open spec fn letter_sem(c: char) -> Option<int> {
    if c == 'c' || c == 'C' {
        Some(0)
    } else if c == 'd' || c == 'D' {
        Some(2)
    } else if c == 'e' || c == 'E' {
        Some(4)
    } else if c == 'f' || c == 'F' {
        Some(5)
    } else if c == 'g' || c == 'G' {
        Some(7)
    } else if c == 'a' || c == 'A' {
        Some(9)
    } else if c == 'b' || c == 'B' {
        Some(11)
    } else {
        None
    }
}

/// A pitch: a letter, an optional `#` or `b`, and one octave digit; its key
/// number clamped to the chromatic range.
pub open spec fn spec_parse_pitch(s: Seq<char>) -> Option<u8> {
    if s.len() == 2 && letter_sem(s[0]) is Some && is_digit(s[1]) {
        Some(spec_clamp_key(digit_val(s[1]) * 12 + letter_sem(s[0])->Some_0))
    } else if s.len() == 3 && letter_sem(s[0]) is Some && (s[1] == '#' || s[1] == 'b') && is_digit(
        s[2],
    ) {
        let acc: int = if s[1] == '#' {
            1
        } else {
            -1
        };
        Some(spec_clamp_key(digit_val(s[2]) * 12 + letter_sem(s[0])->Some_0 + acc))
    } else {
        None
    }
}

/// The key offset of a pitch letter.
fn letter_sem_exec(c: char) -> (r: Option<u32>)
    ensures
        (match (r, letter_sem(c)) {
            (Some(v), Some(x)) => v as int == x,
            (None, None) => true,
            _ => false,
        }),
{
    if c == 'c' || c == 'C' {
        Some(0)
    } else if c == 'd' || c == 'D' {
        Some(2)
    } else if c == 'e' || c == 'E' {
        Some(4)
    } else if c == 'f' || c == 'F' {
        Some(5)
    } else if c == 'g' || c == 'G' {
        Some(7)
    } else if c == 'a' || c == 'A' {
        Some(9)
    } else if c == 'b' || c == 'B' {
        Some(11)
    } else {
        None
    }
}

/// Reads a pitch into its key number.
pub fn parse_pitch(s: &str) -> (r: Option<u8>)
    ensures
        r == spec_parse_pitch(s@),
{
    let n = s.unicode_len();
    if n == 2 {
        let c0 = s.get_char(0);
        let c1 = s.get_char(1);
        match letter_sem_exec(c0) {
            Some(sem) => {
                if c1 >= '0' && c1 <= '9' {
                    let oct = (c1 as u32) - ('0' as u32);
                    let key = oct * 12 + sem;
                    Some(if key > 127 {
                        127u8
                    } else {
                        key as u8
                    })
                } else {
                    None
                }
            },
            None => None,
        }
    } else if n == 3 {
        let c0 = s.get_char(0);
        let c1 = s.get_char(1);
        let c2 = s.get_char(2);
        match letter_sem_exec(c0) {
            Some(sem) => {
                if (c1 == '#' || c1 == 'b') && c2 >= '0' && c2 <= '9' {
                    let oct = (c2 as u32) - ('0' as u32);
                    let base: i32 = (oct * 12 + sem) as i32;
                    let key: i32 = if c1 == '#' {
                        base + 1
                    } else {
                        base - 1
                    };
                    Some(
                        if key < 0 {
                            0u8
                        } else if key > 127 {
                            127u8
                        } else {
                            key as u8
                        },
                    )
                } else {
                    None
                }
            },
            None => None,
        }
    } else {
        None
    }
}

/// How many leading characters of `s` are letters.
pub open spec fn alpha_prefix_len(s: Seq<char>) -> int
    decreases s.len(),
{
    if s.len() == 0 {
        0
    } else if !is_alpha(s[0]) {
        0
    } else {
        1 + alpha_prefix_len(s.skip(1))
    }
}

/// A scan that stopped at the first non-letter found the prefix length.
pub proof fn lemma_alpha_prefix_of_scan(s: Seq<char>, p: int)
    requires
        0 <= p <= s.len(),
        forall|j: int| 0 <= j < p ==> is_alpha(#[trigger] s[j]),
        p < s.len() ==> !is_alpha(s[p]),
    ensures
        alpha_prefix_len(s) == p,
    decreases p,
{
    if p == 0 {
    } else {
        assert(forall|j: int| 0 <= j < s.len() - 1 ==> s.skip(1)[j] == s[j + 1]);
        lemma_alpha_prefix_of_scan(s.skip(1), p - 1);
    }
}

/// One inline target: a bare integer selects an instrument; a letter name
/// with an optional number selects a named property.
pub open spec fn spec_parse_target(s: Seq<char>) -> Option<TargetModel> {
    if s.len() == 0 {
        None
    } else if is_digit(s[0]) || s[0] == '-' {
        match spec_parse_int(s) {
            Some(v) => Some(TargetModel::Index(v as i32)),
            None => None,
        }
    } else {
        let k = alpha_prefix_len(s);
        if k == 0 {
            None
        } else {
            let name = s.take(k);
            let rest = s.skip(k);
            if rest.len() == 0 {
                Some(TargetModel::Named(name, None))
            } else {
                match spec_parse_number(rest) {
                    Some(f) => Some(TargetModel::Named(name, Some(f))),
                    None => None,
                }
            }
        }
    }
}

/// Whether a character is a letter.
fn is_alpha_exec(c: char) -> (r: bool)
    ensures
        r == is_alpha(c),
{
    (c >= 'a' && c <= 'z') || (c >= 'A' && c <= 'Z')
}

/// Reads one inline target.
pub fn parse_target(s: &str) -> (r: Option<CycleTarget>)
    ensures
        (match (r, spec_parse_target(s@)) {
            (Some(t), Some(m)) => t@ == m,
            (None, None) => true,
            _ => false,
        }),
{
    let n = s.unicode_len();
    if n == 0 {
        return None;
    }
    let c0 = s.get_char(0);
    if (c0 >= '0' && c0 <= '9') || c0 == '-' {
        match parse_int(s) {
            Some(v) => Some(CycleTarget::Index(v)),
            None => None,
        }
    } else {
        let mut k: usize = 0;
        while k < n && is_alpha_exec(s.get_char(k))
            invariant
                n == s@.len(),
                k <= n,
                forall|j: int| 0 <= j < k ==> is_alpha(#[trigger] s@[j]),
            decreases n - k,
        {
            k = k + 1;
        }
        proof {
            lemma_alpha_prefix_of_scan(s@, k as int);
        }
        if k == 0 {
            return None;
        }
        let name = s.substring_char(0, k).to_owned();
        let rest = s.substring_char(k, n);
        proof {
            assert(name@ =~= s@.take(k as int));
            assert(rest@ =~= s@.skip(k as int));
        }
        if rest.unicode_len() == 0 {
            Some(CycleTarget::Named(name, None))
        } else {
            match parse_number(rest) {
                Some(f) => Some(CycleTarget::Named(name, Some(f))),
                None => None,
            }
        }
    }
}

/// The body of a template: a rest, a hold, a number, a pitch, a chord or a
/// bare name.
pub open spec fn spec_parse_body(s: Seq<char>) -> Option<ValueModel> {
    if s.len() == 0 {
        None
    } else if s.len() == 1 && s[0] == '~' {
        Some(ValueModel::Rest)
    } else if s.len() == 1 && s[0] == '_' {
        Some(ValueModel::Hold)
    } else if is_digit(s[0]) || s[0] == '-' {
        if find_char(s, '.') < s.len() {
            match spec_parse_number(s) {
                Some(f) => Some(ValueModel::Float(f)),
                None => None,
            }
        } else {
            match spec_parse_int(s) {
                Some(v) => Some(ValueModel::Integer(v as i32)),
                None => None,
            }
        }
    } else {
        let q = find_char(s, '\'');
        if q < s.len() {
            let root = s.take(q);
            let mode = s.skip(q + 1);
            if spec_parse_pitch(root) is Some && mode.len() >= 1 && all_name_chars(mode) {
                Some(ValueModel::Chord(spec_parse_pitch(root)->Some_0, mode))
            } else {
                None
            }
        } else if spec_parse_pitch(s) is Some {
            Some(ValueModel::Pitch(spec_parse_pitch(s)->Some_0))
        } else if all_name_chars(s) {
            Some(ValueModel::Name(s))
        } else {
            None
        }
    }
}

/// Whether every character of `s` may stand in a name.
fn check_name_chars(s: &str) -> (r: bool)
    ensures
        r == all_name_chars(s@),
{
    let n = s.unicode_len();
    let mut i: usize = 0;
    while i < n
        invariant
            n == s@.len(),
            i <= n,
            forall|j: int| 0 <= j < i ==> is_name_char(#[trigger] s@[j]),
        decreases n - i,
    {
        let c = s.get_char(i);
        let ok = (c >= 'a' && c <= 'z') || (c >= 'A' && c <= 'Z') || (c >= '0' && c <= '9') || c
            == '_' || c == '#';
        if !ok {
            assert(!is_name_char(s@[i as int]));
            return false;
        }
        i = i + 1;
    }
    true
}

/// Reads a template body into its symbolic value.
pub fn parse_body(s: &str) -> (r: Option<CycleValue>)
    ensures
        (match (r, spec_parse_body(s@)) {
            (Some(v), Some(m)) => v@ == m,
            (None, None) => true,
            _ => false,
        }),
{
    let n = s.unicode_len();
    if n == 0 {
        return None;
    }
    let c0 = s.get_char(0);
    if n == 1 && c0 == '~' {
        return Some(CycleValue::Rest);
    }
    if n == 1 && c0 == '_' {
        return Some(CycleValue::Hold);
    }
    if (c0 >= '0' && c0 <= '9') || c0 == '-' {
        let mut d: usize = 0;
        while d < n && s.get_char(d) != '.'
            invariant
                n == s@.len(),
                d <= n,
                forall|j: int| 0 <= j < d ==> s@[j] != '.',
            decreases n - d,
        {
            d = d + 1;
        }
        proof {
            lemma_find_char_of_scan(s@, '.', d as int);
        }
        if d < n {
            return match parse_number(s) {
                Some(f) => Some(CycleValue::Float(f)),
                None => None,
            };
        } else {
            return match parse_int(s) {
                Some(v) => Some(CycleValue::Integer(v)),
                None => None,
            };
        }
    }
    let mut q: usize = 0;
    while q < n && s.get_char(q) != '\''
        invariant
            n == s@.len(),
            q <= n,
            forall|j: int| 0 <= j < q ==> s@[j] != '\'',
        decreases n - q,
    {
        q = q + 1;
    }
    proof {
        lemma_find_char_of_scan(s@, '\'', q as int);
    }
    if q < n {
        let root = s.substring_char(0, q);
        let mode = s.substring_char(q + 1, n);
        proof {
            assert(root@ =~= s@.take(q as int));
            assert(mode@ =~= s@.skip(q as int + 1));
        }
        match parse_pitch(root) {
            Some(key) => {
                if mode.unicode_len() >= 1 && check_name_chars(mode) {
                    Some(CycleValue::Chord(key, mode.to_owned()))
                } else {
                    None
                }
            },
            None => None,
        }
    } else {
        match parse_pitch(s) {
            Some(key) => Some(CycleValue::Pitch(key)),
            None => {
                if check_name_chars(s) {
                    Some(CycleValue::Name(s.to_owned()))
                } else {
                    None
                }
            },
        }
    }
}

/// Every part read as a target, in order.
pub open spec fn spec_parse_targets(parts: Seq<Seq<char>>) -> Option<Seq<TargetModel>>
    decreases parts.len(),
{
    if parts.len() == 0 {
        Some(Seq::empty())
    } else {
        match spec_parse_target(parts[0]) {
            None => None,
            Some(t) => match spec_parse_targets(parts.skip(1)) {
                None => None,
                Some(ts) => Some(seq![t] + ts),
            },
        }
    }
}

/// Reads the target parts of a template, all or nothing.
fn parse_targets(parts: &Vec<String>, from: usize) -> (r: Option<Vec<CycleTarget>>)
    requires
        from <= parts@.len(),
    ensures
        (match (r, spec_parse_targets(strings_view(parts@).skip(from as int))) {
            (Some(v), Some(m)) => targets_view(v@) == m,
            (None, None) => true,
            _ => false,
        }),
{
    let mut out: Vec<CycleTarget> = Vec::new();
    let mut i: usize = from;
    let ghost whole = strings_view(parts@).skip(from as int);
    proof {
        assert(targets_view(out@) =~= Seq::<TargetModel>::empty());
    }
    while i < parts.len()
        invariant
            from <= i <= parts@.len(),
            whole == strings_view(parts@).skip(from as int),
            (match spec_parse_targets(strings_view(parts@).skip(i as int)) {
                None => spec_parse_targets(whole) is None,
                Some(ts) => spec_parse_targets(whole) == Some(targets_view(out@) + ts),
            }),
        decreases parts@.len() - i,
    {
        let ghost rest = strings_view(parts@).skip(i as int);
        proof {
            assert(rest[0] == parts@[i as int]@);
            assert(rest.skip(1) =~= strings_view(parts@).skip(i as int + 1));
        }
        match parse_target(parts[i].as_str()) {
            Some(t) => {
                let ghost tm = t@;
                out.push(t);
                proof {
                    if spec_parse_targets(rest.skip(1)) is Some {
                        let ts = spec_parse_targets(rest.skip(1))->Some_0;
                        assert(targets_view(out@) =~= targets_view(out@.drop_last()) + seq![tm]);
                        assert((targets_view(out@.drop_last()) + seq![tm]) + ts =~= targets_view(
                            out@.drop_last(),
                        ) + (seq![tm] + ts));
                    }
                }
            },
            None => {
                return None;
            },
        }
        i = i + 1;
    }
    proof {
        assert(strings_view(parts@).skip(parts@.len() as int) =~= Seq::<Seq<char>>::empty());
        assert(targets_view(out@) + Seq::<TargetModel>::empty() =~= targets_view(out@));
    }
    Some(out)
}

/// One template: a body with `:`-separated targets, optionally ending in
/// `?`.  A template with an empty body is a bare modifier and needs at least
/// one target.
pub open spec fn spec_parse_template(s: Seq<char>) -> Option<TemplateModel> {
    let chance = s.len() >= 1 && s[s.len() - 1] == '?';
    let body_all = if chance {
        s.take(s.len() - 1)
    } else {
        s
    };
    let parts = spec_split(body_all, ':');
    let body = parts[0];
    match spec_parse_targets(parts.skip(1)) {
        None => None,
        Some(ts) => if body.len() == 0 {
            if ts.len() >= 1 {
                Some(
                    TemplateModel {
                        string: body,
                        value: ValueModel::Target(ts[0]),
                        targets: ts,
                        chance,
                    },
                )
            } else {
                None
            }
        } else {
            match spec_parse_body(body) {
                None => None,
                Some(v) => Some(TemplateModel { string: body, value: v, targets: ts, chance }),
            }
        },
    }
}

/// Splitting yields at least one segment.
pub proof fn lemma_split_nonempty(s: Seq<char>, sep: char)
    ensures
        spec_split(s, sep).len() >= 1,
    decreases s.len(),
{
    let i = find_char(s, sep);
    if i < 0 || i >= s.len() {
    } else {
        lemma_split_nonempty(s.skip(i + 1), sep);
    }
}

/// Reads one template.
pub fn parse_template(s: &str) -> (r: Option<EventTemplate>)
    ensures
        (match (r, spec_parse_template(s@)) {
            (Some(t), Some(m)) => t@ == m,
            (None, None) => true,
            _ => false,
        }),
{
    let n = s.unicode_len();
    let chance = n >= 1 && s.get_char(n - 1) == '?';
    let body_all = if chance {
        s.substring_char(0, n - 1)
    } else {
        s
    };
    proof {
        if chance {
            assert(body_all@ =~= s@.take(n as int - 1));
        }
    }
    let parts = split_str(body_all, ':');
    proof {
        lemma_split_nonempty(body_all@, ':');
        assert(parts@[0]@ == strings_view(parts@)[0]);
    }
    let targets = match parse_targets(&parts, 1) {
        Some(ts) => ts,
        None => {
            proof {
                assert(strings_view(parts@).skip(1) =~= spec_split(body_all@, ':').skip(1));
            }
            return None;
        },
    };
    proof {
        assert(strings_view(parts@).skip(1) =~= spec_split(body_all@, ':').skip(1));
    }
    let body = &parts[0];
    let ghost m = spec_parse_template(s@);
    if body.as_str().unicode_len() == 0 {
        if targets.len() >= 1 {
            let value = CycleValue::Target(clone_target(&targets[0]));
            let t = EventTemplate { string: body.clone(), value, targets, chance };
            proof {
                assert(t@ == m->Some_0);
            }
            Some(t)
        } else {
            None
        }
    } else {
        match parse_body(body.as_str()) {
            Some(value) => {
                let t = EventTemplate { string: body.clone(), value, targets, chance };
                proof {
                    assert(t@ == m->Some_0);
                }
                Some(t)
            },
            None => None,
        }
    }
}

/// Every part read as a template, in order.
pub open spec fn spec_parse_templates(parts: Seq<Seq<char>>) -> Option<Seq<TemplateModel>>
    decreases parts.len(),
{
    if parts.len() == 0 {
        Some(Seq::empty())
    } else {
        match spec_parse_template(parts[0]) {
            None => None,
            Some(t) => match spec_parse_templates(parts.skip(1)) {
                None => None,
                Some(ts) => Some(seq![t] + ts),
            },
        }
    }
}

/// One step: an alternation `<a|b|c>` whose alternatives all parse, or a
/// single template.
pub open spec fn spec_parse_step(s: Seq<char>) -> Option<StepModel> {
    if s.len() >= 1 && s[0] == '<' {
        if s.len() >= 3 && s[s.len() - 1] == '>' {
            let inner = s.subrange(1, s.len() - 1);
            match spec_parse_templates(spec_split(inner, '|')) {
                None => None,
                Some(ts) => Some(StepModel::Alternates(ts)),
            }
        } else {
            None
        }
    } else {
        match spec_parse_template(s) {
            None => None,
            Some(t) => Some(StepModel::Single(t)),
        }
    }
}

/// Reads the alternatives of an alternation, all or nothing.
fn parse_templates(parts: &Vec<String>) -> (r: Option<Vec<EventTemplate>>)
    ensures
        (match (r, spec_parse_templates(strings_view(parts@))) {
            (Some(v), Some(m)) => templates_view(v@) == m && v@.len() == m.len(),
            (None, None) => true,
            _ => false,
        }),
{
    let mut out: Vec<EventTemplate> = Vec::new();
    let mut i: usize = 0;
    let ghost whole = strings_view(parts@);
    proof {
        assert(strings_view(parts@).skip(0int) =~= whole);
        assert(templates_view(out@) =~= Seq::<TemplateModel>::empty());
    }
    while i < parts.len()
        invariant
            i <= parts@.len(),
            whole == strings_view(parts@),
            (match spec_parse_templates(strings_view(parts@).skip(i as int)) {
                None => spec_parse_templates(whole) is None,
                Some(ts) => spec_parse_templates(whole) == Some(templates_view(out@) + ts),
            }),
        decreases parts@.len() - i,
    {
        let ghost rest = strings_view(parts@).skip(i as int);
        proof {
            assert(rest[0] == parts@[i as int]@);
            assert(rest.skip(1) =~= strings_view(parts@).skip(i as int + 1));
        }
        match parse_template(parts[i].as_str()) {
            Some(t) => {
                let ghost tm = t@;
                out.push(t);
                proof {
                    if spec_parse_templates(rest.skip(1)) is Some {
                        let ts = spec_parse_templates(rest.skip(1))->Some_0;
                        assert(templates_view(out@) =~= templates_view(out@.drop_last()) + seq![
                            tm,
                        ]);
                        assert((templates_view(out@.drop_last()) + seq![tm]) + ts
                            =~= templates_view(out@.drop_last()) + (seq![tm] + ts));
                    }
                }
            },
            None => {
                return None;
            },
        }
        i = i + 1;
    }
    proof {
        assert(strings_view(parts@).skip(parts@.len() as int) =~= Seq::<Seq<char>>::empty());
        assert(templates_view(out@) + Seq::<TemplateModel>::empty() =~= templates_view(out@));
    }
    Some(out)
}

/// Reads one step.
pub fn parse_step(s: &str) -> (r: Option<Step>)
    ensures
        (match (r, spec_parse_step(s@)) {
            (Some(st), Some(m)) => st@ == m && (st@ is Alternates ==> st@->Alternates_0.len()
                >= 1),
            (None, None) => true,
            _ => false,
        }),
{
    let n = s.unicode_len();
    if n >= 1 && s.get_char(0) == '<' {
        if n >= 3 && s.get_char(n - 1) == '>' {
            let inner = s.substring_char(1, n - 1);
            proof {
                assert(inner@ =~= s@.subrange(1, n as int - 1));
            }
            let parts = split_str(inner, '|');
            match parse_templates(&parts) {
                Some(ts) => {
                    proof {
                        lemma_split_nonempty(inner@, '|');
                    }
                    Some(Step::Alternates(ts))
                },
                None => None,
            }
        } else {
            None
        }
    } else {
        match parse_template(s) {
            Some(t) => Some(Step::Single(t)),
            None => None,
        }
    }
}

/// Every token read as a step, in order.
pub open spec fn spec_parse_steps(toks: Seq<Seq<char>>) -> Option<Seq<StepModel>>
    decreases toks.len(),
{
    if toks.len() == 0 {
        Some(Seq::empty())
    } else {
        match spec_parse_step(toks[0]) {
            None => None,
            Some(t) => match spec_parse_steps(toks.skip(1)) {
                None => None,
                Some(ts) => Some(seq![t] + ts),
            },
        }
    }
}

/// One channel: its space-separated tokens read as steps, with a cap on the
/// step count so the spans' denominators fit their machine integers.
pub open spec fn spec_parse_channel(s: Seq<char>) -> Option<Seq<StepModel>> {
    let toks = drop_empty(spec_split(s, ' '));
    if toks.len() > 0x7fff_ffff {
        None
    } else {
        spec_parse_steps(toks)
    }
}

/// Whether every alternation among the steps offers an alternative.
pub open spec fn steps_alternates_ok(steps: Seq<StepModel>) -> bool {
    forall|i: int|
        0 <= i < steps.len() && steps[i] is Alternates ==> (#[trigger] steps[i])->Alternates_0.len()
            >= 1
}

/// A parsed alternation has as many alternatives as parts.
pub proof fn lemma_parse_templates_len(parts: Seq<Seq<char>>)
    ensures
        spec_parse_templates(parts) is Some ==> spec_parse_templates(parts)->Some_0.len()
            == parts.len(),
    decreases parts.len(),
{
    if parts.len() == 0 {
    } else {
        lemma_parse_templates_len(parts.skip(1));
    }
}

/// A parsed alternation offers at least one alternative.
pub proof fn lemma_parse_step_alternates(s: Seq<char>)
    ensures
        spec_parse_step(s) is Some && spec_parse_step(s)->Some_0 is Alternates ==> spec_parse_step(
            s,
        )->Some_0->Alternates_0.len() >= 1,
{
    if s.len() >= 3 && s[0] == '<' && s[s.len() - 1] == '>' {
        let inner = s.subrange(1, s.len() - 1);
        lemma_split_nonempty(inner, '|');
        lemma_parse_templates_len(spec_split(inner, '|'));
    }
}

/// Every alternation among parsed steps offers an alternative.
pub proof fn lemma_parse_steps_alternates(toks: Seq<Seq<char>>)
    ensures
        spec_parse_steps(toks) is Some ==> steps_alternates_ok(spec_parse_steps(toks)->Some_0),
    decreases toks.len(),
{
    if toks.len() == 0 {
    } else {
        lemma_parse_step_alternates(toks[0]);
        lemma_parse_steps_alternates(toks.skip(1));
        if spec_parse_steps(toks) is Some {
            let t = spec_parse_step(toks[0])->Some_0;
            let ts = spec_parse_steps(toks.skip(1))->Some_0;
            let r = spec_parse_steps(toks)->Some_0;
            assert forall|k: int| 0 <= k < r.len() && r[k] is Alternates implies (#[trigger] r[k])->Alternates_0.len()
                >= 1 by {
                if k == 0 {
                    assert(r[k] == t);
                } else {
                    assert(r[k] == ts[k - 1]);
                }
            }
        }
    }
}

/// Every parsed channel respects the step cap and offers its alternatives.
pub proof fn lemma_parse_channels_wf(parts: Seq<Seq<char>>)
    ensures
        spec_parse_channels(parts) is Some ==> forall|c: int|
            0 <= c < spec_parse_channels(parts)->Some_0.len() ==> (#[trigger] spec_parse_channels(
                parts,
            )->Some_0[c]).len() <= 0x7fff_ffff && steps_alternates_ok(
                spec_parse_channels(parts)->Some_0[c],
            ),
    decreases parts.len(),
{
    if parts.len() == 0 {
    } else {
        lemma_parse_channels_wf(parts.skip(1));
        if spec_parse_channels(parts) is Some {
            let toks = drop_empty(spec_split(parts[0], ' '));
            lemma_parse_steps_alternates(toks);
            lemma_parse_steps_len(toks);
            let c0 = spec_parse_channel(parts[0])->Some_0;
            let cs = spec_parse_channels(parts.skip(1))->Some_0;
            let r = spec_parse_channels(parts)->Some_0;
            assert forall|c: int| 0 <= c < r.len() implies (#[trigger] r[c]).len() <= 0x7fff_ffff
                && steps_alternates_ok(r[c]) by {
                if c == 0 {
                    assert(r[c] == c0);
                } else {
                    assert(r[c] == cs[c - 1]);
                }
            }
        }
    }
}

/// Parsed steps are as many as the tokens.
pub proof fn lemma_parse_steps_len(toks: Seq<Seq<char>>)
    ensures
        spec_parse_steps(toks) is Some ==> spec_parse_steps(toks)->Some_0.len() == toks.len(),
    decreases toks.len(),
{
    if toks.len() == 0 {
    } else {
        lemma_parse_steps_len(toks.skip(1));
    }
}

/// Reads one channel.
#[verifier::rlimit(60)]
pub fn parse_channel(s: &str) -> (r: Option<Vec<Step>>)
    ensures
        (match (r, spec_parse_channel(s@)) {
            (Some(v), Some(m)) => steps_view(v@) == m && v@.len() == m.len() && v@.len()
                <= 0x7fff_ffff && steps_alternates_ok(steps_view(v@)),
            (None, None) => true,
            _ => false,
        }),
{
    let toks = keep_nonempty(split_str(s, ' '));
    if toks.len() > 0x7fff_ffff {
        return None;
    }
    let mut out: Vec<Step> = Vec::new();
    let mut i: usize = 0;
    let ghost whole = strings_view(toks@);
    proof {
        assert(strings_view(toks@).skip(0int) =~= whole);
        assert(steps_view(out@) =~= Seq::<StepModel>::empty());
    }
    while i < toks.len()
        invariant
            i <= toks@.len(),
            whole == strings_view(toks@),
            whole == drop_empty(spec_split(s@, ' ')),
            whole.len() <= 0x7fff_ffff,
            out@.len() == i as int,
            (match spec_parse_steps(strings_view(toks@).skip(i as int)) {
                None => spec_parse_steps(whole) is None,
                Some(ts) => spec_parse_steps(whole) == Some(steps_view(out@) + ts),
            }),
        decreases toks@.len() - i,
    {
        let ghost rest = strings_view(toks@).skip(i as int);
        proof {
            assert(rest[0] == toks@[i as int]@);
            assert(rest.skip(1) =~= strings_view(toks@).skip(i as int + 1));
        }
        match parse_step(toks[i].as_str()) {
            Some(st) => {
                let ghost sm = st@;
                out.push(st);
                proof {
                    if spec_parse_steps(rest.skip(1)) is Some {
                        let ts = spec_parse_steps(rest.skip(1))->Some_0;
                        assert(steps_view(out@) =~= steps_view(out@.drop_last()) + seq![sm]);
                        assert((steps_view(out@.drop_last()) + seq![sm]) + ts =~= steps_view(
                            out@.drop_last(),
                        ) + (seq![sm] + ts));
                    }
                }
            },
            None => {
                return None;
            },
        }
        i = i + 1;
    }
    proof {
        assert(strings_view(toks@).skip(toks@.len() as int) =~= Seq::<Seq<char>>::empty());
        assert(steps_view(out@) + Seq::<StepModel>::empty() =~= steps_view(out@));
        lemma_parse_steps_alternates(whole);
    }
    Some(out)
}

/// Every comma-separated segment read as a channel, in order.
pub open spec fn spec_parse_channels(parts: Seq<Seq<char>>) -> Option<Seq<Seq<StepModel>>>
    decreases parts.len(),
{
    if parts.len() == 0 {
        Some(Seq::empty())
    } else {
        match spec_parse_channel(parts[0]) {
            None => None,
            Some(c) => match spec_parse_channels(parts.skip(1)) {
                None => None,
                Some(cs) => Some(seq![c] + cs),
            },
        }
    }
}

/// The whole pattern: its comma-separated channels.
pub open spec fn spec_parse_cycle(s: Seq<char>) -> Option<Seq<Seq<StepModel>>> {
    spec_parse_channels(spec_split(s, ','))
}

/// Reads a whole pattern into compiled channels.
#[verifier::rlimit(60)]
pub fn parse_cycle(s: &str) -> (r: Option<Vec<Vec<Step>>>)
    ensures
        (match (r, spec_parse_cycle(s@)) {
            (Some(v), Some(m)) => channels_model(v@) == m && cycle_wf(
                CycleModel { channels: channels_model(v@), seed: 0, cursor: 0 },
            ),
            (None, None) => true,
            _ => false,
        }),
{
    let parts = split_str(s, ',');
    let mut out: Vec<Vec<Step>> = Vec::new();
    let mut i: usize = 0;
    let ghost whole = strings_view(parts@);
    proof {
        assert(strings_view(parts@).skip(0int) =~= whole);
        assert(channels_model(out@) =~= Seq::<Seq<StepModel>>::empty());
    }
    while i < parts.len()
        invariant
            i <= parts@.len(),
            whole == strings_view(parts@),
            whole == spec_split(s@, ','),
            out@.len() == i as int,
            (match spec_parse_channels(strings_view(parts@).skip(i as int)) {
                None => spec_parse_channels(whole) is None,
                Some(cs) => spec_parse_channels(whole) == Some(channels_model(out@) + cs),
            }),
        decreases parts@.len() - i,
    {
        let ghost rest = strings_view(parts@).skip(i as int);
        proof {
            assert(rest[0] == parts@[i as int]@);
            assert(rest.skip(1) =~= strings_view(parts@).skip(i as int + 1));
        }
        match parse_channel(parts[i].as_str()) {
            Some(steps) => {
                let ghost cm = steps_view(steps@);
                out.push(steps);
                proof {
                    if spec_parse_channels(rest.skip(1)) is Some {
                        let cs = spec_parse_channels(rest.skip(1))->Some_0;
                        assert(channels_model(out@) =~= channels_model(out@.drop_last()) + seq![
                            cm,
                        ]);
                        assert((channels_model(out@.drop_last()) + seq![cm]) + cs
                            =~= channels_model(out@.drop_last()) + (seq![cm] + cs));
                    }
                }
            },
            None => {
                return None;
            },
        }
        i = i + 1;
    }
    proof {
        assert(strings_view(parts@).skip(parts@.len() as int) =~= Seq::<Seq<char>>::empty());
        assert(channels_model(out@) + Seq::<Seq<StepModel>>::empty() =~= channels_model(out@));
        lemma_parse_channels_wf(whole);
    }
    Some(out)
}

} // verus!
