//! The event-log file format: a small JSON codec for exactly the shape the
//! recorder writes, working on bytes.
//!
//! The on-disk form is
//! `{"metadata":{"width":W,"height":H},"events":[{"Click":{"x":X,"y":Y,"timestamp_ms":T}},...]}`,
//! with `CursorMove` as the other variant. The parser tolerates JSON
//! whitespace between tokens (older logs were pretty-printed) and still
//! accepts the legacy form, a bare array of events, which loads with a
//! default 1920x1080 resolution. Keys are accepted only in the order shown
//! above — the order the recorder has always written them in, compact or
//! pretty — so a hand-edited file with reordered keys is rejected. Saving
//! and then loading a log returns it unchanged; that round trip is proved
//! below.

use vstd::prelude::*;
use crate::event_log::{EventLog, RecordedEvent, RecordingMetadata};

verus! {

/// JSON whitespace.
pub open spec fn is_ws(b: u8) -> bool {
    b == 32 || b == 9 || b == 10 || b == 13
}

/// ASCII decimal digit.
pub open spec fn is_digit(b: u8) -> bool {
    48 <= b <= 57
}

/// First index at or after `i` holding a non-whitespace byte (the length
/// when none does).
pub open spec fn skip_ws(s: Seq<u8>, i: int) -> int
    decreases s.len() - i,
{
    if i < 0 || i >= s.len() {
        s.len() as int
    } else if is_ws(s[i]) {
        skip_ws(s, i + 1)
    } else {
        i
    }
}

/// First index at or after `i` holding a non-digit byte (the length when
/// none does).
pub open spec fn digit_run_end(s: Seq<u8>, i: int) -> int
    decreases s.len() - i,
{
    if i < 0 || i >= s.len() {
        s.len() as int
    } else if is_digit(s[i]) {
        digit_run_end(s, i + 1)
    } else {
        i
    }
}

proof fn lemma_skip_ws_characterization(s: Seq<u8>, i: int, j: int)
    requires
        0 <= i <= j <= s.len(),
        forall|m: int| i <= m < j ==> is_ws(#[trigger] s[m]),
        j < s.len() ==> !is_ws(s[j]),
    ensures
        skip_ws(s, i) == j,
    decreases s.len() - i,
{
    if i == j {
    } else {
        lemma_skip_ws_characterization(s, i + 1, j);
    }
}

proof fn lemma_digit_run_characterization(s: Seq<u8>, i: int, j: int)
    requires
        0 <= i <= j <= s.len(),
        forall|m: int| i <= m < j ==> is_digit(#[trigger] s[m]),
        j < s.len() ==> !is_digit(s[j]),
    ensures
        digit_run_end(s, i) == j,
    decreases s.len() - i,
{
    if i == j {
    } else {
        lemma_digit_run_characterization(s, i + 1, j);
    }
}

proof fn lemma_skip_ws_range(s: Seq<u8>, i: int)
    requires
        0 <= i <= s.len(),
    ensures
        i <= skip_ws(s, i) <= s.len(),
    decreases s.len() - i,
{
    if i < s.len() && is_ws(s[i]) {
        lemma_skip_ws_range(s, i + 1);
    }
}

/// The value of a digit run, most significant first.
pub open spec fn digits_value(s: Seq<u8>) -> nat
    decreases s.len(),
{
    if s.len() == 0 {
        0
    } else {
        digits_value(s.drop_last()) * 10 + (s.last() - 48) as nat
    }
}

/// The decimal digits of `n`, most significant first, no sign and no leading
/// zeros (a single `0` for zero).
pub open spec fn u64_dec(n: nat) -> Seq<u8>
    decreases n,
{
    if n < 10 {
        seq![(48 + n) as u8]
    } else {
        u64_dec(n / 10).push((48 + n % 10) as u8)
    }
}

/// The decimal form of a signed value: a minus sign before the magnitude.
pub open spec fn i32_dec(v: int) -> Seq<u8> {
    if v < 0 {
        seq![45u8] + u64_dec((-v) as nat)
    } else {
        u64_dec(v as nat)
    }
}

/// Reading back the digits of `n` yields `n`.
pub proof fn lemma_digits_value_of_u64_dec(n: nat)
    ensures
        digits_value(u64_dec(n)) == n,
        u64_dec(n).len() >= 1,
        forall|m: int| 0 <= m < u64_dec(n).len() ==> is_digit(#[trigger] u64_dec(n)[m]),
    decreases n,
{
    if n < 10 {
        let d = u64_dec(n);
        assert(d == seq![(48 + n) as u8]);
        assert(d.len() == 1);
        assert(d.last() == (48 + n) as u8);
        assert((48 + n) as u8 == 48 + n);
        assert(d.drop_last() =~= Seq::<u8>::empty());
        assert(digits_value(d.drop_last()) == 0);
        assert(digits_value(d) == digits_value(d.drop_last()) * 10 + (d.last() - 48) as nat);
        assert(digits_value(d) == n);
    } else {
        lemma_digits_value_of_u64_dec(n / 10);
        let d = u64_dec(n);
        assert(d.drop_last() =~= u64_dec(n / 10));
        assert(d.last() == (48 + n % 10) as u8);
        assert(n / 10 * 10 + n % 10 == n) by (nonlinear_arith)
            requires
                n >= 10,
        ;
        assert forall|m: int| 0 <= m < d.len() implies is_digit(#[trigger] d[m]) by {
            if m < d.len() - 1 {
                assert(d[m] == u64_dec(n / 10)[m]);
            }
        }
    }
}

/// A digit run's value only grows as the run extends.
proof fn lemma_digits_value_prefix_le(s: Seq<u8>, m: int)
    requires
        0 <= m <= s.len(),
    ensures
        digits_value(s.take(m)) <= digits_value(s),
    decreases s.len() - m,
{
    if m == s.len() {
        assert(s.take(m) =~= s);
    } else {
        lemma_digits_value_prefix_le(s, m + 1);
        assert(s.take(m + 1).drop_last() =~= s.take(m));
        assert(digits_value(s.take(m + 1)) == digits_value(s.take(m)) * 10 + (s.take(m + 1).last()
            - 48) as nat);
        assert(digits_value(s.take(m)) <= digits_value(s.take(m)) * 10) by (nonlinear_arith);
    }
}

/// Executable whitespace skip.
fn skip_ws_exec(s: &Vec<u8>, i: usize) -> (r: usize)
    requires
        i <= s.len(),
    ensures
        r == skip_ws(s@, i as int),
        i <= r <= s.len(),
        r < s.len() ==> !is_ws(s@[r as int]),
{
    let n = s.len();
    let mut j = i;
    while j < n && (s[j] == 32 || s[j] == 9 || s[j] == 10 || s[j] == 13)
        invariant
            i <= j <= n,
            n == s.len(),
            forall|m: int| i <= m < j ==> is_ws(#[trigger] s@[m]),
        decreases n - j,
    {
        j += 1;
    }
    proof {
        lemma_skip_ws_characterization(s@, i as int, j as int);
    }
    j
}

/// Executable digit-run scan.
fn digit_run_end_exec(s: &Vec<u8>, i: usize) -> (r: usize)
    requires
        i <= s.len(),
    ensures
        r == digit_run_end(s@, i as int),
        i <= r <= s.len(),
        forall|m: int| i <= m < r ==> is_digit(#[trigger] s@[m]),
{
    let n = s.len();
    let mut j = i;
    while j < n && 48 <= s[j] && s[j] <= 57
        invariant
            i <= j <= n,
            n == s.len(),
            forall|m: int| i <= m < j ==> is_digit(#[trigger] s@[m]),
        decreases n - j,
    {
        j += 1;
    }
    proof {
        lemma_digit_run_characterization(s@, i as int, j as int);
    }
    j
}

/// Token match: whitespace, then exactly the bytes of `lit`; `-1` when the
/// input differs.
pub open spec fn expect_lit(s: Seq<u8>, i: int, lit: Seq<u8>) -> int {
    let j = skip_ws(s, i);
    if j + lit.len() <= s.len() && s.subrange(j, j + lit.len()) == lit {
        j + lit.len()
    } else {
        -1
    }
}

/// Single-byte token match: whitespace, then the byte `b`.
pub open spec fn expect_byte(s: Seq<u8>, i: int, b: u8) -> int {
    let j = skip_ws(s, i);
    if j < s.len() && s[j] == b {
        j + 1
    } else {
        -1
    }
}

/// Executable token match.
fn expect_lit_exec(s: &Vec<u8>, i: usize, lit: &Vec<u8>) -> (r: Option<usize>)
    requires
        i <= s.len(),
    ensures
        r is Some ==> expect_lit(s@, i as int, lit@) == r->Some_0 && i <= r->Some_0 <= s.len(),
        r is None ==> expect_lit(s@, i as int, lit@) == -1,
{
    let j = skip_ws_exec(s, i);
    if s.len() - j < lit.len() {
        proof {
            assert(j + lit@.len() > s@.len());
        }
        return None;
    }
    let k = lit.len();
    let mut m: usize = 0;
    while m < k
        invariant
            0 <= m <= k,
            k == lit.len(),
            j + k <= s.len(),
            j == skip_ws(s@, i as int),
            forall|q: int| 0 <= q < m ==> s@[j + q] == #[trigger] lit@[q],
        decreases k - m,
    {
        if s[j + m] != lit[m] {
            proof {
                assert(s@.subrange(j as int, j + k) != lit@) by {
                    assert(s@.subrange(j as int, j + k)[m as int] == s@[j + m]);
                }
            }
            return None;
        }
        m += 1;
    }
    proof {
        assert(s@.subrange(j as int, j + k) =~= lit@);
    }
    Some(j + k)
}

/// Executable single-byte token match.
fn expect_byte_exec(s: &Vec<u8>, i: usize, b: u8) -> (r: Option<usize>)
    requires
        i <= s.len(),
    ensures
        r is Some ==> expect_byte(s@, i as int, b) == r->Some_0 && i < r->Some_0 <= s.len(),
        r is None ==> expect_byte(s@, i as int, b) == -1,
{
    let j = skip_ws_exec(s, i);
    if j < s.len() && s[j] == b {
        Some(j + 1)
    } else {
        None
    }
}

/// Unsigned decimal number token: whitespace, then a digit run whose value
/// fits in `u64`.
pub open spec fn parse_u64_token(s: Seq<u8>, i: int) -> Option<(u64, int)> {
    let j = skip_ws(s, i);
    let e = digit_run_end(s, j);
    if e == j {
        Option::None
    } else if digits_value(s.subrange(j, e)) > u64::MAX {
        Option::None
    } else {
        Option::Some((digits_value(s.subrange(j, e)) as u64, e))
    }
}

/// Executable unsigned number token.
fn parse_u64_token_exec(s: &Vec<u8>, i: usize) -> (r: Option<(u64, usize)>)
    requires
        i <= s.len(),
    ensures
        r is Some ==> parse_u64_token(s@, i as int) == Option::Some(
            (r->Some_0.0, r->Some_0.1 as int),
        ) && i < r->Some_0.1 <= s.len(),
        r is None ==> parse_u64_token(s@, i as int) is None,
{
    let j = skip_ws_exec(s, i);
    let e = digit_run_end_exec(s, j);
    if e == j {
        return None;
    }
    let ghost run = s@.subrange(j as int, e as int);
    let mut acc: u64 = 0;
    let mut cur = j;
    while cur < e
        invariant
            j <= cur <= e <= s.len(),
            e == digit_run_end(s@, j as int),
            j == skip_ws(s@, i as int),
            run == s@.subrange(j as int, e as int),
            forall|m: int| j <= m < e ==> is_digit(#[trigger] s@[m]),
            acc == digits_value(run.take(cur - j)),
        decreases e - cur,
    {
        let d: u8 = s[cur] - 48;
        if acc > (u64::MAX - d as u64) / 10 {
            proof {
                assert(acc * 10 + d > u64::MAX) by (nonlinear_arith)
                    requires
                        acc > (u64::MAX - d as u64) / 10,
                        0 <= d <= 9,
                ;
                assert(run.take(cur - j + 1).drop_last() =~= run.take(cur - j));
                assert(run.take(cur - j + 1).last() == s@[cur as int]);
                assert(digits_value(run.take(cur - j + 1)) > u64::MAX);
                lemma_digits_value_prefix_le(run, cur - j + 1);
            }
            return None;
        }
        proof {
            assert(acc * 10 + d <= u64::MAX) by (nonlinear_arith)
                requires
                    acc <= (u64::MAX - d as u64) / 10,
                    0 <= d <= 9,
            ;
            assert(run.take(cur - j + 1).drop_last() =~= run.take(cur - j));
            assert(run.take(cur - j + 1).last() == s@[cur as int]);
        }
        acc = acc * 10 + d as u64;
        cur += 1;
    }
    proof {
        assert(run.take(e - j) =~= run);
    }
    Some((acc, e))
}

/// The quoted key `"metadata"`.
pub open spec fn key_metadata() -> Seq<u8> {
    seq![34u8, 109, 101, 116, 97, 100, 97, 116, 97, 34]
}

/// The quoted key `"width"`.
pub open spec fn key_width() -> Seq<u8> {
    seq![34u8, 119, 105, 100, 116, 104, 34]
}

/// The quoted key `"height"`.
pub open spec fn key_height() -> Seq<u8> {
    seq![34u8, 104, 101, 105, 103, 104, 116, 34]
}

/// The quoted key `"events"`.
pub open spec fn key_events() -> Seq<u8> {
    seq![34u8, 101, 118, 101, 110, 116, 115, 34]
}

/// The quoted key `"Click"`.
pub open spec fn key_click() -> Seq<u8> {
    seq![34u8, 67, 108, 105, 99, 107, 34]
}

/// The quoted key `"CursorMove"`.
pub open spec fn key_cursor_move() -> Seq<u8> {
    seq![34u8, 67, 117, 114, 115, 111, 114, 77, 111, 118, 101, 34]
}

/// The quoted key `"x"`.
pub open spec fn key_x() -> Seq<u8> {
    seq![34u8, 120, 34]
}

/// The quoted key `"y"`.
pub open spec fn key_y() -> Seq<u8> {
    seq![34u8, 121, 34]
}

/// The quoted key `"timestamp_ms"`.
pub open spec fn key_timestamp() -> Seq<u8> {
    seq![34u8, 116, 105, 109, 101, 115, 116, 97, 109, 112, 95, 109, 115, 34]
}

fn key_metadata_vec() -> (v: Vec<u8>)
    ensures
        v@ === key_metadata(),
{
    let mut v: Vec<u8> = Vec::new();
    v.push(34);
    v.push(109);
    v.push(101);
    v.push(116);
    v.push(97);
    v.push(100);
    v.push(97);
    v.push(116);
    v.push(97);
    v.push(34);
    proof {
        assert(v@ =~= key_metadata());
    }
    v
}

fn key_width_vec() -> (v: Vec<u8>)
    ensures
        v@ === key_width(),
{
    let mut v: Vec<u8> = Vec::new();
    v.push(34);
    v.push(119);
    v.push(105);
    v.push(100);
    v.push(116);
    v.push(104);
    v.push(34);
    proof {
        assert(v@ =~= key_width());
    }
    v
}

fn key_height_vec() -> (v: Vec<u8>)
    ensures
        v@ === key_height(),
{
    let mut v: Vec<u8> = Vec::new();
    v.push(34);
    v.push(104);
    v.push(101);
    v.push(105);
    v.push(103);
    v.push(104);
    v.push(116);
    v.push(34);
    proof {
        assert(v@ =~= key_height());
    }
    v
}

fn key_events_vec() -> (v: Vec<u8>)
    ensures
        v@ === key_events(),
{
    let mut v: Vec<u8> = Vec::new();
    v.push(34);
    v.push(101);
    v.push(118);
    v.push(101);
    v.push(110);
    v.push(116);
    v.push(115);
    v.push(34);
    proof {
        assert(v@ =~= key_events());
    }
    v
}

fn key_click_vec() -> (v: Vec<u8>)
    ensures
        v@ === key_click(),
{
    let mut v: Vec<u8> = Vec::new();
    v.push(34);
    v.push(67);
    v.push(108);
    v.push(105);
    v.push(99);
    v.push(107);
    v.push(34);
    proof {
        assert(v@ =~= key_click());
    }
    v
}

fn key_cursor_move_vec() -> (v: Vec<u8>)
    ensures
        v@ === key_cursor_move(),
{
    let mut v: Vec<u8> = Vec::new();
    v.push(34);
    v.push(67);
    v.push(117);
    v.push(114);
    v.push(115);
    v.push(111);
    v.push(114);
    v.push(77);
    v.push(111);
    v.push(118);
    v.push(101);
    v.push(34);
    proof {
        assert(v@ =~= key_cursor_move());
    }
    v
}

fn key_x_vec() -> (v: Vec<u8>)
    ensures
        v@ === key_x(),
{
    let mut v: Vec<u8> = Vec::new();
    v.push(34);
    v.push(120);
    v.push(34);
    proof {
        assert(v@ =~= key_x());
    }
    v
}

fn key_y_vec() -> (v: Vec<u8>)
    ensures
        v@ === key_y(),
{
    let mut v: Vec<u8> = Vec::new();
    v.push(34);
    v.push(121);
    v.push(34);
    proof {
        assert(v@ =~= key_y());
    }
    v
}

fn key_timestamp_vec() -> (v: Vec<u8>)
    ensures
        v@ === key_timestamp(),
{
    let mut v: Vec<u8> = Vec::new();
    v.push(34);
    v.push(116);
    v.push(105);
    v.push(109);
    v.push(101);
    v.push(115);
    v.push(116);
    v.push(97);
    v.push(109);
    v.push(112);
    v.push(95);
    v.push(109);
    v.push(115);
    v.push(34);
    proof {
        assert(v@ =~= key_timestamp());
    }
    v
}

/// Signed decimal number token for an `i32` field: an optional minus sign,
/// then an unsigned number within the type's range.
pub open spec fn parse_i32_token(s: Seq<u8>, i: int) -> Option<(int, int)> {
    let j = skip_ws(s, i);
    if j < s.len() && s[j] == 45 {
        match parse_u64_token(s, j + 1) {
            Option::Some((v, e)) => if v <= 2147483648u64 {
                Option::Some((-(v as int), e))
            } else {
                Option::None
            },
            Option::None => Option::None,
        }
    } else {
        match parse_u64_token(s, i) {
            Option::Some((v, e)) => if v <= 2147483647u64 {
                Option::Some((v as int, e))
            } else {
                Option::None
            },
            Option::None => Option::None,
        }
    }
}

/// Upper bound on input sizes the parser accepts; keeps index arithmetic
/// inside `i64`.
pub const MAX_JSON_LEN: u64 = 0x4000_0000_0000_0000;

/// Sentinel-chained executable [`expect_byte`]: a failed earlier step (-1)
/// flows through.
fn eb(s: &Vec<u8>, i: i64, b: u8) -> (r: i64)
    requires
        s@.len() <= MAX_JSON_LEN,
        -1 <= i <= s@.len(),
    ensures
        r == expect_byte(s@, i as int, b),
        -1 <= r <= s@.len(),
        r >= 0 && i >= 0 ==> r > i,
{
    if i < 0 {
        proof {
            assert(skip_ws(s@, i as int) == s@.len());
        }
        -1
    } else {
        proof {
            assert(i <= s.len());
            assert((i as usize) as int == i as int);
        }
        match expect_byte_exec(s, i as usize, b) {
            Option::Some(j) => j as i64,
            Option::None => -1,
        }
    }
}

/// Sentinel-chained executable [`expect_lit`].
fn el(s: &Vec<u8>, i: i64, lit: &Vec<u8>) -> (r: i64)
    requires
        s@.len() <= MAX_JSON_LEN,
        -1 <= i <= s@.len(),
        lit@.len() >= 1,
    ensures
        r == expect_lit(s@, i as int, lit@),
        -1 <= r <= s@.len(),
        r >= 0 && i >= 0 ==> r > i,
{
    if i < 0 {
        proof {
            assert(skip_ws(s@, i as int) == s@.len());
        }
        -1
    } else {
        proof {
            assert(i <= s.len());
            assert((i as usize) as int == i as int);
            lemma_skip_ws_range(s@, i as int);
        }
        match expect_lit_exec(s, i as usize, lit) {
            Option::Some(j) => {
                proof {
                    assert(j == skip_ws(s@, i as int) + lit@.len());
                }
                j as i64
            },
            Option::None => -1,
        }
    }
}

/// Sentinel-aware executable unsigned number token.
fn pu64(s: &Vec<u8>, i: i64) -> (r: Option<(u64, i64)>)
    requires
        s@.len() <= MAX_JSON_LEN,
        -1 <= i <= s@.len(),
    ensures
        r is Some ==> parse_u64_token(s@, i as int) == Option::Some(
            (r->Some_0.0, r->Some_0.1 as int),
        ) && i < r->Some_0.1 <= s@.len(),
        r is None ==> parse_u64_token(s@, i as int) is None,
{
    if i < 0 {
        proof {
            assert(skip_ws(s@, i as int) == s@.len());
            assert(digit_run_end(s@, s@.len() as int) == s@.len());
        }
        None
    } else {
        proof {
            assert(i <= s.len());
            assert((i as usize) as int == i as int);
        }
        match parse_u64_token_exec(s, i as usize) {
            Option::Some((v, e)) => Some((v, e as i64)),
            Option::None => None,
        }
    }
}

/// Sentinel-aware executable signed number token.
fn pi32(s: &Vec<u8>, i: i64) -> (r: Option<(i32, i64)>)
    requires
        s@.len() <= MAX_JSON_LEN,
        -1 <= i <= s@.len(),
    ensures
        r is Some ==> parse_i32_token(s@, i as int) == Option::Some(
            (r->Some_0.0 as int, r->Some_0.1 as int),
        ) && i < r->Some_0.1 <= s@.len(),
        r is None ==> parse_i32_token(s@, i as int) is None,
{
    if i < 0 {
        proof {
            assert(skip_ws(s@, i as int) == s@.len());
            assert(digit_run_end(s@, s@.len() as int) == s@.len());
        }
        return None;
    }
    proof {
        assert(i <= s.len());
        assert((i as usize) as int == i as int);
    }
    let j = skip_ws_exec(s, i as usize);
    if j < s.len() && s[j] == 45 {
        match parse_u64_token_exec(s, j + 1) {
            Option::Some((v, e)) => {
                if v <= 2147483648 {
                    Some(((-(v as i64)) as i32, e as i64))
                } else {
                    None
                }
            },
            Option::None => None,
        }
    } else {
        match parse_u64_token_exec(s, i as usize) {
            Option::Some((v, e)) => {
                if v <= 2147483647 {
                    Some((v as i32, e as i64))
                } else {
                    None
                }
            },
            Option::None => None,
        }
    }
}

/// The body both event variants share, after the variant key:
/// `:{"x":X,"y":Y,"timestamp_ms":T}}`.
pub open spec fn parse_event_fields(s: Seq<u8>, i: int) -> Option<(int, int, u64, int)> {
    let a = expect_byte(s, i, 58);
    let b = expect_byte(s, a, 123);
    let c = expect_byte(s, expect_lit(s, b, key_x()), 58);
    match parse_i32_token(s, c) {
        Option::None => Option::None,
        Option::Some((x, d)) => {
            let e = expect_byte(s, expect_lit(s, expect_byte(s, d, 44), key_y()), 58);
            match parse_i32_token(s, e) {
                Option::None => Option::None,
                Option::Some((y, f)) => {
                    let g = expect_byte(
                        s,
                        expect_lit(s, expect_byte(s, f, 44), key_timestamp()),
                        58,
                    );
                    match parse_u64_token(s, g) {
                        Option::None => Option::None,
                        Option::Some((t, h)) => {
                            let q = expect_byte(s, expect_byte(s, h, 125), 125);
                            if q >= 0 {
                                Option::Some((x, y, t, q))
                            } else {
                                Option::None
                            }
                        },
                    }
                },
            }
        },
    }
}

fn parse_event_fields_exec(s: &Vec<u8>, i: i64) -> (r: Option<(i32, i32, u64, i64)>)
    requires
        s@.len() <= MAX_JSON_LEN,
        -1 <= i <= s@.len(),
    ensures
        r is Some ==> parse_event_fields(s@, i as int) == Option::Some(
            (r->Some_0.0 as int, r->Some_0.1 as int, r->Some_0.2, r->Some_0.3 as int),
        ) && i < r->Some_0.3 <= s@.len(),
        r is None ==> parse_event_fields(s@, i as int) is None,
{
    proof {
        reveal(parse_event_fields);
    }
    let a = eb(s, i, 58);
    let b = eb(s, a, 123);
    let kx = key_x_vec();
    let c = eb(s, el(s, b, &kx), 58);
    let (x, d) = match pi32(s, c) {
        Option::Some(p) => p,
        Option::None => {
            return None;
        },
    };
    let ky = key_y_vec();
    let e = eb(s, el(s, eb(s, d, 44), &ky), 58);
    let (y, f) = match pi32(s, e) {
        Option::Some(p) => p,
        Option::None => {
            return None;
        },
    };
    let kt = key_timestamp_vec();
    let g = eb(s, el(s, eb(s, f, 44), &kt), 58);
    let (t, h) = match pu64(s, g) {
        Option::Some(p) => p,
        Option::None => {
            return None;
        },
    };
    let q = eb(s, eb(s, h, 125), 125);
    if q >= 0 {
        Some((x, y, t, q))
    } else {
        None
    }
}

/// One event: `{"Click":{...}}` or `{"CursorMove":{...}}`.
#[verifier::opaque]
pub open spec fn parse_event_at(s: Seq<u8>, i: int) -> Option<(RecordedEvent, int)> {
    let a = expect_byte(s, i, 123);
    let c1 = expect_lit(s, a, key_click());
    if c1 >= 0 {
        match parse_event_fields(s, c1) {
            Option::Some((x, y, t, m)) => Option::Some(
                ((RecordedEvent::Click { x: x as i32, y: y as i32, timestamp_ms: t }), m),
            ),
            Option::None => Option::None,
        }
    } else {
        let c2 = expect_lit(s, a, key_cursor_move());
        if c2 >= 0 {
            match parse_event_fields(s, c2) {
                Option::Some((x, y, t, m)) => Option::Some(
                    ((RecordedEvent::CursorMove { x: x as i32, y: y as i32, timestamp_ms: t }), m),
                ),
                Option::None => Option::None,
            }
        } else {
            Option::None
        }
    }
}

fn parse_event_exec(s: &Vec<u8>, i: i64) -> (r: Option<(RecordedEvent, i64)>)
    requires
        s@.len() <= MAX_JSON_LEN,
        -1 <= i <= s@.len(),
    ensures
        r is Some ==> parse_event_at(s@, i as int) == Option::Some(
            (r->Some_0.0, r->Some_0.1 as int),
        ) && i < r->Some_0.1 <= s@.len(),
        r is None ==> parse_event_at(s@, i as int) is None,
{
    proof {
        reveal(parse_event_at);
    }
    let a = eb(s, i, 123);
    let kc = key_click_vec();
    let c1 = el(s, a, &kc);
    if c1 >= 0 {
        match parse_event_fields_exec(s, c1) {
            Option::Some((x, y, t, m)) => Some((RecordedEvent::Click { x, y, timestamp_ms: t }, m)),
            Option::None => None,
        }
    } else {
        let km = key_cursor_move_vec();
        let c2 = el(s, a, &km);
        if c2 >= 0 {
            match parse_event_fields_exec(s, c2) {
                Option::Some((x, y, t, m)) => Some(
                    (RecordedEvent::CursorMove { x, y, timestamp_ms: t }, m),
                ),
                Option::None => None,
            }
        } else {
            None
        }
    }
}

/// The events after the first one: `,EVENT` repeated, then `]`.
#[verifier::opaque]
pub open spec fn parse_events_rest(s: Seq<u8>, i: int) -> Option<(Seq<RecordedEvent>, int)>
    decreases s.len() - i,
{
    if i < 0 || i > s.len() {
        Option::None
    } else {
        let j = skip_ws(s, i);
        if j < s.len() && s[j] == 93 {
            Option::Some((Seq::empty(), j + 1))
        } else if j < s.len() && s[j] == 44 {
            match parse_event_at(s, j + 1) {
                Option::None => Option::None,
                Option::Some((e0, k)) => if i < k <= s.len() {
                    match parse_events_rest(s, k) {
                        Option::Some((es, m)) => Option::Some((seq![e0] + es, m)),
                        Option::None => Option::None,
                    }
                } else {
                    Option::None
                },
            }
        } else {
            Option::None
        }
    }
}

/// A JSON array of events.
#[verifier::opaque]
pub open spec fn parse_events_at(s: Seq<u8>, i: int) -> Option<(Seq<RecordedEvent>, int)> {
    let a = expect_byte(s, i, 91);
    if a < 0 {
        Option::None
    } else {
        let j = skip_ws(s, a);
        if j < s.len() && s[j] == 93 {
            Option::Some((Seq::empty(), j + 1))
        } else {
            match parse_event_at(s, a) {
                Option::None => Option::None,
                Option::Some((e0, k)) => if a < k <= s.len() {
                    match parse_events_rest(s, k) {
                        Option::Some((es, m)) => Option::Some((seq![e0] + es, m)),
                        Option::None => Option::None,
                    }
                } else {
                    Option::None
                },
            }
        }
    }
}

/// Glue for the event-list loop: the whole parse is the events seen so far
/// plus whatever the rest of the list parses to.
spec fn append_opt(
    acc: Seq<RecordedEvent>,
    r: Option<(Seq<RecordedEvent>, int)>,
) -> Option<(Seq<RecordedEvent>, int)> {
    match r {
        Option::Some((es, m)) => Option::Some((acc + es, m)),
        Option::None => Option::None,
    }
}

fn parse_events_exec(s: &Vec<u8>, i: usize) -> (r: Option<(Vec<RecordedEvent>, usize)>)
    requires
        s@.len() <= MAX_JSON_LEN,
        i <= s@.len(),
    ensures
        r is Some ==> parse_events_at(s@, i as int) == Option::Some(
            (r->Some_0.0@, r->Some_0.1 as int),
        ) && r->Some_0.1 <= s@.len(),
        r is None ==> parse_events_at(s@, i as int) is None,
{
    proof {
        reveal(parse_events_at);
        reveal(parse_events_rest);
    }
    let a = match expect_byte_exec(s, i, 91) {
        Option::Some(a) => a,
        Option::None => {
            return None;
        },
    };
    let j = skip_ws_exec(s, a);
    if j < s.len() && s[j] == 93 {
        return Some((Vec::new(), j + 1));
    }
    let (e0, k0) = match parse_event_exec(s, a as i64) {
        Option::Some(p) => p,
        Option::None => {
            return None;
        },
    };
    let mut acc: Vec<RecordedEvent> = Vec::new();
    acc.push(e0);
    let mut cur: usize = k0 as usize;
    proof {
        assert(parse_events_at(s@, i as int) == append_opt(
            acc@,
            parse_events_rest(s@, cur as int),
        ));
    }
    loop
        invariant
            cur <= s@.len(),
            s@.len() <= MAX_JSON_LEN,
            parse_events_at(s@, i as int) == append_opt(acc@, parse_events_rest(s@, cur as int)),
        decreases s@.len() - cur,
    {
        proof {
            reveal(parse_events_rest);
        }
        let j2 = skip_ws_exec(s, cur);
        if j2 < s.len() && s[j2] == 93 {
            proof {
                assert(acc@ + Seq::<RecordedEvent>::empty() =~= acc@);
            }
            return Some((acc, j2 + 1));
        }
        if j2 < s.len() && s[j2] == 44 {
            match parse_event_exec(s, (j2 + 1) as i64) {
                Option::Some((e, k)) => {
                    proof {
                        let rk = parse_events_rest(s@, k as int);
                        if rk is Some {
                            assert(acc@ + (seq![e] + rk->Some_0.0) =~= acc@.push(e)
                                + rk->Some_0.0);
                        }
                    }
                    acc.push(e);
                    cur = k as usize;
                },
                Option::None => {
                    return None;
                },
            }
        } else {
            return None;
        }
    }
}

/// The object form of the file: metadata, then the events array, then the
/// closing brace and trailing whitespace only.
pub open spec fn parse_object_form(s: Seq<u8>) -> Option<(RecordingMetadata, Seq<RecordedEvent>)> {
    let a = expect_byte(s, 0, 123);
    let b = expect_byte(s, expect_lit(s, a, key_metadata()), 58);
    let c = expect_byte(s, b, 123);
    let d = expect_byte(s, expect_lit(s, c, key_width()), 58);
    match parse_u64_token(s, d) {
        Option::None => Option::None,
        Option::Some((w, e)) => if w > 0xFFFF_FFFFu64 {
            Option::None
        } else {
            let f = expect_byte(s, expect_lit(s, expect_byte(s, e, 44), key_height()), 58);
            match parse_u64_token(s, f) {
                Option::None => Option::None,
                Option::Some((h, g)) => if h > 0xFFFF_FFFFu64 {
                    Option::None
                } else {
                    let p = expect_byte(
                        s,
                        expect_lit(s, expect_byte(s, expect_byte(s, g, 125), 44), key_events()),
                        58,
                    );
                    if p < 0 {
                        Option::None
                    } else {
                        match parse_events_at(s, p) {
                            Option::None => Option::None,
                            Option::Some((es, m)) => {
                                let q = expect_byte(s, m, 125);
                                if q >= 0 && skip_ws(s, q) == s.len() {
                                    Option::Some(
                                        (
                                            (RecordingMetadata {
                                                width: w as u32,
                                                height: h as u32,
                                            }),
                                            es,
                                        ),
                                    )
                                } else {
                                    Option::None
                                }
                            },
                        }
                    }
                },
            }
        },
    }
}

/// The whole file: either the current object form with metadata, or the
/// legacy bare array (metadata defaults to 1920x1080); trailing whitespace
/// only.
pub open spec fn parse_event_log_spec(s: Seq<u8>) -> Option<
    (RecordingMetadata, Seq<RecordedEvent>),
> {
    let j0 = skip_ws(s, 0);
    if j0 < s.len() && s[j0] == 91 {
        match parse_events_at(s, 0) {
            Option::None => Option::None,
            Option::Some((es, m)) => if skip_ws(s, m) == s.len() {
                Option::Some(((RecordingMetadata { width: 1920, height: 1080 }), es))
            } else {
                Option::None
            },
        }
    } else {
        parse_object_form(s)
    }
}

#[verifier::rlimit(100)]
#[verifier::spinoff_prover]
fn parse_object_form_exec(s: &Vec<u8>) -> (r: Option<EventLog>)
    requires
        s@.len() <= MAX_JSON_LEN,
    ensures
        r is Some ==> parse_object_form(s@) == Option::Some(
            (r->Some_0.metadata, r->Some_0.events@),
        ),
        r is None ==> parse_object_form(s@) is None,
{
    let n = s.len();
    proof {
        assert(n == s@.len());
    }
    let kmeta = key_metadata_vec();
    let a = eb(s, 0, 123);
    let b = eb(s, el(s, a, &kmeta), 58);
    let c = eb(s, b, 123);
    let kw = key_width_vec();
    let d = eb(s, el(s, c, &kw), 58);
    let (w, e) = match pu64(s, d) {
        Option::Some(p) => p,
        Option::None => {
            return None;
        },
    };
    if w > 0xFFFF_FFFF {
        return None;
    }
    let kh = key_height_vec();
    let f = eb(s, el(s, eb(s, e, 44), &kh), 58);
    let (h, g) = match pu64(s, f) {
        Option::Some(p) => p,
        Option::None => {
            return None;
        },
    };
    if h > 0xFFFF_FFFF {
        return None;
    }
    let kev = key_events_vec();
    let p = eb(s, el(s, eb(s, eb(s, g, 125), 44), &kev), 58);
    if p < 0 {
        return None;
    }
    proof {
        assert(0 <= p <= n);
        assert((p as usize) as int == p as int);
    }
    match parse_events_exec(s, p as usize) {
        Option::None => None,
        Option::Some((es, m)) => {
            proof {
                assert((m as i64) as int == m as int);
            }
            let q = eb(s, m as i64, 125);
            if q >= 0 && skip_ws_exec(s, q as usize) == s.len() {
                Some(
                    EventLog {
                        metadata: RecordingMetadata { width: w as u32, height: h as u32 },
                        events: es,
                    },
                )
            } else {
                None
            }
        },
    }
}

/// Parse an event log from file bytes. Accepts the current object form and
/// the legacy bare-array form.
pub fn parse_event_log(s: &Vec<u8>) -> (r: Option<EventLog>)
    requires
        s@.len() <= MAX_JSON_LEN,
    ensures
        r is Some ==> parse_event_log_spec(s@) == Option::Some(
            (r->Some_0.metadata, r->Some_0.events@),
        ),
        r is None ==> parse_event_log_spec(s@) is None,
{
    let j0 = skip_ws_exec(s, 0);
    if j0 < s.len() && s[j0] == 91 {
        match parse_events_exec(s, 0) {
            Option::None => None,
            Option::Some((es, m)) => {
                if skip_ws_exec(s, m) == s.len() {
                    Some(
                        EventLog {
                            metadata: RecordingMetadata { width: 1920, height: 1080 },
                            events: es,
                        },
                    )
                } else {
                    None
                }
            },
        }
    } else {
        parse_object_form_exec(s)
    }
}

/// The canonical encoding of an event's shared body, after the variant key:
/// `:{"x":X,"y":Y,"timestamp_ms":T}}`.
#[verifier::opaque]
pub open spec fn enc_event_fields(x: int, y: int, t: u64) -> Seq<u8> {
    seq![58u8] + seq![123u8] + key_x() + seq![58u8] + i32_dec(x) + seq![44u8] + key_y()
        + seq![58u8] + i32_dec(y) + seq![44u8] + key_timestamp() + seq![58u8] + u64_dec(t as nat)
        + seq![125u8] + seq![125u8]
}

/// The canonical (compact) encoding of one event.
pub open spec fn enc_event(e: RecordedEvent) -> Seq<u8> {
    seq![123u8] + (if e.is_click() {
        key_click()
    } else {
        key_cursor_move()
    }) + enc_event_fields(e.pos_x() as int, e.pos_y() as int, e.timestamp())
}

/// The events joined with commas, no brackets.
pub open spec fn enc_events_body(es: Seq<RecordedEvent>) -> Seq<u8>
    decreases es.len(),
{
    if es.len() == 0 {
        Seq::empty()
    } else if es.len() == 1 {
        enc_event(es[0])
    } else {
        enc_events_body(es.drop_last()) + seq![44u8] + enc_event(es.last())
    }
}

/// The canonical encoding of the events array.
pub open spec fn enc_events(es: Seq<RecordedEvent>) -> Seq<u8> {
    seq![91u8] + enc_events_body(es) + seq![93u8]
}

/// The canonical encoding of a whole event log.
pub open spec fn enc_event_log(meta: RecordingMetadata, es: Seq<RecordedEvent>) -> Seq<u8> {
    seq![123u8] + key_metadata() + seq![58u8] + seq![123u8] + key_width() + seq![58u8] + u64_dec(
        meta.width as nat,
    ) + seq![44u8] + key_height() + seq![58u8] + u64_dec(meta.height as nat) + seq![125u8]
        + seq![44u8] + key_events() + seq![58u8] + enc_events(es) + seq![125u8]
}

/// Append every byte of `v`.
fn push_bytes(out: &mut Vec<u8>, v: &Vec<u8>)
    ensures
        final(out)@ === old(out)@ + v@,
{
    let n = v.len();
    for m in 0..n
        invariant
            n == v.len(),
            out@ === old(out)@ + v@.take(m as int),
    {
        out.push(v[m]);
        proof {
            assert(old(out)@ + v@.take(m + 1) =~= (old(out)@ + v@.take(m as int)).push(
                v@[m as int],
            ));
        }
    }
    proof {
        assert(old(out)@ + v@.take(n as int) =~= old(out)@ + v@);
    }
}

/// Append the decimal digits of `n`.
fn push_u64_dec(out: &mut Vec<u8>, n: u64)
    ensures
        final(out)@ === old(out)@ + u64_dec(n as nat),
    decreases n,
{
    if n < 10 {
        out.push(48 + n as u8);
        proof {
            assert(old(out)@ + u64_dec(n as nat) =~= old(out)@.push((48 + n as nat) as u8));
        }
    } else {
        push_u64_dec(out, n / 10);
        out.push(48 + (n % 10) as u8);
        proof {
            assert(old(out)@ + u64_dec(n as nat) =~= (old(out)@ + u64_dec((n / 10) as nat)).push(
                (48 + n as nat % 10) as u8,
            ));
        }
    }
}

/// Append the decimal form of `v`, minus sign first when negative.
fn push_i32_dec(out: &mut Vec<u8>, v: i32)
    ensures
        final(out)@ === old(out)@ + i32_dec(v as int),
{
    if v < 0 {
        out.push(45);
        let mag: u64 = (-(v as i64)) as u64;
        push_u64_dec(out, mag);
        proof {
            assert(old(out)@ + i32_dec(v as int) =~= (old(out)@ + seq![45u8]) + u64_dec(
                mag as nat,
            ));
        }
    } else {
        push_u64_dec(out, v as u64);
    }
}

/// Append the canonical encoding of one event.
#[verifier::rlimit(100)]
#[verifier::spinoff_prover]
fn push_event(out: &mut Vec<u8>, e: &RecordedEvent)
    ensures
        final(out)@ === old(out)@ + enc_event(*e),
{
    let (x, y) = e.get_pos();
    let t = e.get_timestamp();
    out.push(123);
    let key = match e {
        RecordedEvent::Click { .. } => key_click_vec(),
        RecordedEvent::CursorMove { .. } => key_cursor_move_vec(),
    };
    push_bytes(out, &key);
    out.push(58);
    out.push(123);
    let kx = key_x_vec();
    push_bytes(out, &kx);
    out.push(58);
    push_i32_dec(out, x);
    out.push(44);
    let ky = key_y_vec();
    push_bytes(out, &ky);
    out.push(58);
    push_i32_dec(out, y);
    out.push(44);
    let kt = key_timestamp_vec();
    push_bytes(out, &kt);
    out.push(58);
    push_u64_dec(out, t);
    out.push(125);
    out.push(125);
    proof {
        reveal(enc_event_fields);
        assert(out@ =~= old(out)@ + enc_event(*e));
    }
}

/// Serialize an event log to its canonical JSON bytes.
#[verifier::rlimit(100)]
#[verifier::spinoff_prover]
pub fn event_log_to_json(log: &EventLog) -> (out: Vec<u8>)
    ensures
        out@ === enc_event_log(log.metadata, log.events@),
{
    let mut out: Vec<u8> = Vec::new();
    out.push(123);
    let kmeta = key_metadata_vec();
    push_bytes(&mut out, &kmeta);
    out.push(58);
    out.push(123);
    let kw = key_width_vec();
    push_bytes(&mut out, &kw);
    out.push(58);
    push_u64_dec(&mut out, log.metadata.width as u64);
    out.push(44);
    let kh = key_height_vec();
    push_bytes(&mut out, &kh);
    out.push(58);
    push_u64_dec(&mut out, log.metadata.height as u64);
    out.push(125);
    out.push(44);
    let kev = key_events_vec();
    push_bytes(&mut out, &kev);
    out.push(58);
    out.push(91);
    let ghost header = out@;
    let n = log.events.len();
    for k in 0..n
        invariant
            n == log.events.len(),
            out@ === header + enc_events_body(log.events@.take(k as int)),
    {
        if k > 0 {
            out.push(44);
        }
        push_event(&mut out, &log.events[k]);
        proof {
            let es = log.events@;
            assert(es.take(k + 1).last() == es[k as int]);
            if k == 0 {
                assert(es.take(1).len() == 1);
                assert(es.take(1)[0] == es[0]);
                assert(out@ =~= header + enc_events_body(es.take(1)));
            } else {
                assert(es.take(k + 1).drop_last() =~= es.take(k as int));
                assert(out@ =~= header + enc_events_body(es.take(k + 1)));
            }
        }
    }
    out.push(93);
    out.push(125);
    proof {
        assert(log.events@.take(n as int) =~= log.events@);
        assert(out@ =~= enc_event_log(log.metadata, log.events@));
    }
    out
}


// ---------------------------------------------------------------------------
// The round-trip proof: parsing a canonical encoding yields the original
// value, token by token. Each lemma shows one parser step consumes exactly
// one encoder token.

proof fn lemma_expect_byte_exact(s: Seq<u8>, i: int, b: u8)
    requires
        0 <= i < s.len(),
        s[i] == b,
        !is_ws(b),
    ensures
        expect_byte(s, i, b) == i + 1,
{
    lemma_skip_ws_characterization(s, i, i);
}

proof fn lemma_expect_lit_exact(s: Seq<u8>, i: int, lit: Seq<u8>)
    requires
        0 <= i,
        i + lit.len() <= s.len(),
        s.subrange(i, i + lit.len()) == lit,
        lit.len() >= 1,
        !is_ws(lit[0]),
    ensures
        expect_lit(s, i, lit) == i + lit.len(),
{
    assert(s[i] == s.subrange(i, i + lit.len())[0]);
    lemma_skip_ws_characterization(s, i, i);
}

proof fn lemma_parse_u64_exact(s: Seq<u8>, i: int, n: nat)
    requires
        0 <= i,
        i + u64_dec(n).len() <= s.len(),
        s.subrange(i, i + u64_dec(n).len()) == u64_dec(n),
        n <= u64::MAX,
        i + u64_dec(n).len() == s.len() || !is_digit(s[i + u64_dec(n).len()]),
    ensures
        parse_u64_token(s, i) == Option::Some((n as u64, i + u64_dec(n).len())),
{
    let d = u64_dec(n);
    let e = i + d.len();
    lemma_digits_value_of_u64_dec(n);
    assert(s[i] == s.subrange(i, e)[0]);
    assert(is_digit(s[i]));
    lemma_skip_ws_characterization(s, i, i);
    assert forall|m: int| i <= m < e implies is_digit(#[trigger] s[m]) by {
        assert(s[m] == s.subrange(i, e)[m - i]);
    }
    lemma_digit_run_characterization(s, i, e);
    assert(digits_value(s.subrange(i, e)) == n);
}

proof fn lemma_parse_i32_exact(s: Seq<u8>, i: int, v: int)
    requires
        0 <= i,
        i + i32_dec(v).len() <= s.len(),
        s.subrange(i, i + i32_dec(v).len()) == i32_dec(v),
        -2147483648 <= v <= 2147483647,
        i + i32_dec(v).len() == s.len() || !is_digit(s[i + i32_dec(v).len()]),
    ensures
        parse_i32_token(s, i) == Option::Some((v, i + i32_dec(v).len())),
{
    let d = i32_dec(v);
    let e = i + d.len();
    if v < 0 {
        assert(s[i] == s.subrange(i, e)[0]);
        assert(s[i] == 45);
        lemma_skip_ws_characterization(s, i, i);
        assert(s.subrange(i + 1, e) =~= u64_dec((-v) as nat)) by {
            assert forall|m: int|
                0 <= m < e - i - 1 implies #[trigger] s.subrange(i + 1, e)[m] == u64_dec(
                (-v) as nat,
            )[m] by {
                assert(s.subrange(i + 1, e)[m] == s.subrange(i, e)[m + 1]);
            }
        }
        lemma_parse_u64_exact(s, i + 1, (-v) as nat);
    } else {
        lemma_digits_value_of_u64_dec(v as nat);
        assert(s[i] == s.subrange(i, e)[0]);
        assert(is_digit(s[i]));
        assert(s[i] != 45);
        lemma_skip_ws_characterization(s, i, i);
        lemma_parse_u64_exact(s, i, v as nat);
    }
}

/// One parser pass over an encoded event body yields its three fields.
#[verifier::rlimit(100)]
#[verifier::spinoff_prover]
proof fn lemma_parse_event_fields_exact(s: Seq<u8>, i: int, x: i32, y: i32, t: u64)
    requires
        0 <= i,
        i + enc_event_fields(x as int, y as int, t).len() <= s.len(),
        s.subrange(i, i + enc_event_fields(x as int, y as int, t).len()) == enc_event_fields(
            x as int,
            y as int,
            t,
        ),
    ensures
        parse_event_fields(s, i) == Option::Some(
            (x as int, y as int, t, i + enc_event_fields(x as int, y as int, t).len()),
        ),
{
    reveal(parse_event_fields);
    reveal(enc_event_fields);
    let enc = enc_event_fields(x as int, y as int, t);
    let xd = i32_dec(x as int);
    let yd = i32_dec(y as int);
    let td = u64_dec(t as nat);
    let p1 = i + 1;
    let p2 = p1 + 1;
    let p3 = p2 + key_x().len();
    let p4 = p3 + 1;
    let p5 = p4 + xd.len();
    let p6 = p5 + 1;
    let p7 = p6 + key_y().len();
    let p8 = p7 + 1;
    let p9 = p8 + yd.len();
    let p10 = p9 + 1;
    let p11 = p10 + key_timestamp().len();
    let p12 = p11 + 1;
    let p13 = p12 + td.len();
    let p14 = p13 + 1;
    let p15 = p14 + 1;
    assert(enc.len() == p15 - i);
    assert forall|m: int| i <= m < i + enc.len() implies #[trigger] s[m] == enc[m - i] by {
        assert(s.subrange(i, i + enc.len())[m - i] == s[m]);
    }
    assert(s[i] == 58);
    lemma_expect_byte_exact(s, i, 58);
    assert(s[p1] == 123);
    lemma_expect_byte_exact(s, p1, 123);
    assert(s.subrange(p2, p3) =~= key_x());
    lemma_expect_lit_exact(s, p2, key_x());
    assert(s[p3] == 58);
    lemma_expect_byte_exact(s, p3, 58);
    assert(s.subrange(p4, p5) =~= xd);
    assert(s[p5] == 44);
    lemma_parse_i32_exact(s, p4, x as int);
    lemma_expect_byte_exact(s, p5, 44);
    assert(s.subrange(p6, p7) =~= key_y());
    lemma_expect_lit_exact(s, p6, key_y());
    assert(s[p7] == 58);
    lemma_expect_byte_exact(s, p7, 58);
    assert(s.subrange(p8, p9) =~= yd);
    assert(s[p9] == 44);
    lemma_parse_i32_exact(s, p8, y as int);
    lemma_expect_byte_exact(s, p9, 44);
    assert(s.subrange(p10, p11) =~= key_timestamp());
    lemma_expect_lit_exact(s, p10, key_timestamp());
    assert(s[p11] == 58);
    lemma_expect_byte_exact(s, p11, 58);
    assert(s.subrange(p12, p13) =~= td);
    assert(s[p13] == 125);
    lemma_parse_u64_exact(s, p12, t as nat);
    lemma_expect_byte_exact(s, p13, 125);
    assert(s[p14] == 125);
    lemma_expect_byte_exact(s, p14, 125);
}

/// One parser pass over one encoded event yields it exactly.
#[verifier::rlimit(100)]
#[verifier::spinoff_prover]
proof fn lemma_parse_event_exact(s: Seq<u8>, i: int, ev: RecordedEvent)
    requires
        0 <= i,
        i + enc_event(ev).len() <= s.len(),
        s.subrange(i, i + enc_event(ev).len()) == enc_event(ev),
    ensures
        parse_event_at(s, i) == Option::Some((ev, i + enc_event(ev).len())),
{
    reveal(parse_event_at);
    let enc = enc_event(ev);
    let key = if ev.is_click() {
        key_click()
    } else {
        key_cursor_move()
    };
    let fields = enc_event_fields(ev.pos_x() as int, ev.pos_y() as int, ev.timestamp());
    let p1 = i + 1;
    let p2 = p1 + key.len();
    let p3 = p2 + fields.len();
    assert(enc.len() == p3 - i);
    assert forall|m: int| i <= m < i + enc.len() implies #[trigger] s[m] == enc[m - i] by {
        assert(s.subrange(i, i + enc.len())[m - i] == s[m]);
    }
    assert(s[i] == 123);
    lemma_expect_byte_exact(s, i, 123);
    assert(s.subrange(p1, p2) =~= key);
    lemma_expect_lit_exact(s, p1, key);
    assert(s.subrange(p2, p3) =~= fields);
    lemma_parse_event_fields_exact(s, p2, ev.pos_x(), ev.pos_y(), ev.timestamp());
    if ev.is_click() {
        assert((RecordedEvent::Click {
            x: ev.pos_x(),
            y: ev.pos_y(),
            timestamp_ms: ev.timestamp(),
        }) == ev);
    } else {
        // the Click key does not match, so the parser falls through to the
        // CursorMove branch
        assert(expect_lit(s, p1, key_click()) == -1) by {
            lemma_skip_ws_characterization(s, p1, p1);
            if p1 + key_click().len() <= s.len() {
                assert(s.subrange(p1, p1 + key_click().len())[2] == s[p1 + 2]);
                assert(s[p1 + 2] == key_cursor_move()[2]);
                assert(s.subrange(p1, p1 + key_click().len()) != key_click());
            }
        }
        assert((RecordedEvent::CursorMove {
            x: ev.pos_x(),
            y: ev.pos_y(),
            timestamp_ms: ev.timestamp(),
        }) == ev);
    }
}

/// The later list entries in forward form: a comma before each event.
spec fn enc_tail(es: Seq<RecordedEvent>) -> Seq<u8>
    decreases es.len(),
{
    if es.len() == 0 {
        Seq::empty()
    } else {
        seq![44u8] + enc_event(es[0]) + enc_tail(es.drop_first())
    }
}

#[verifier::rlimit(100)]
proof fn lemma_enc_tail_snoc(es: Seq<RecordedEvent>, e: RecordedEvent)
    ensures
        enc_tail(es.push(e)) == enc_tail(es) + seq![44u8] + enc_event(e),
    decreases es.len(),
{
    if es.len() == 0 {
        assert(es.push(e)[0] == e);
        assert(es.push(e).drop_first() =~= Seq::<RecordedEvent>::empty());
        assert(enc_tail(es.push(e)) == seq![44u8] + enc_event(e) + enc_tail(
            Seq::<RecordedEvent>::empty(),
        ));
        assert(enc_tail(es.push(e)) =~= enc_tail(es) + seq![44u8] + enc_event(e));
    } else {
        let df = es.drop_first();
        lemma_enc_tail_snoc(df, e);
        assert(es.push(e).drop_first() =~= df.push(e));
        assert(es.push(e)[0] == es[0]);
        assert(es.push(e).len() == es.len() + 1);
        assert(enc_tail(es.push(e)) == seq![44u8] + enc_event(es[0]) + enc_tail(df.push(e)));
        assert(enc_tail(es) == seq![44u8] + enc_event(es[0]) + enc_tail(df));
        assert(seq![44u8] + enc_event(es[0]) + (enc_tail(df) + seq![44u8] + enc_event(e)) =~= (
        seq![44u8] + enc_event(es[0]) + enc_tail(df)) + seq![44u8] + enc_event(e));
        assert(enc_tail(es.push(e)) == seq![44u8] + enc_event(es[0]) + (enc_tail(df) + seq![44u8]
            + enc_event(e)));
    }
}

/// The backward encoding the serializer builds equals the forward form the
/// parser consumes.
#[verifier::rlimit(100)]
proof fn lemma_enc_events_body_forward(es: Seq<RecordedEvent>)
    requires
        es.len() >= 1,
    ensures
        enc_events_body(es) == enc_event(es[0]) + enc_tail(es.drop_first()),
    decreases es.len(),
{
    if es.len() == 1 {
        assert(es.drop_first() =~= Seq::<RecordedEvent>::empty());
        assert(enc_events_body(es) =~= enc_event(es[0]) + enc_tail(es.drop_first()));
    } else {
        lemma_enc_events_body_forward(es.drop_last());
        assert(es.drop_last()[0] == es[0]);
        assert(es.drop_first() =~= es.drop_last().drop_first().push(es.last()));
        lemma_enc_tail_snoc(es.drop_last().drop_first(), es.last());
        assert(enc_events_body(es) == enc_events_body(es.drop_last()) + seq![44u8] + enc_event(
            es.last(),
        ));
        assert(enc_events_body(es) == (enc_event(es[0]) + enc_tail(es.drop_last().drop_first()))
            + seq![44u8] + enc_event(es.last()));
        assert((enc_event(es[0]) + enc_tail(es.drop_last().drop_first())) + seq![44u8] + enc_event(
            es.last(),
        ) =~= enc_event(es[0]) + (enc_tail(es.drop_last().drop_first()) + seq![44u8] + enc_event(
            es.last(),
        )));
    }
}

/// One parser pass over `,EVENT,EVENT...]` yields exactly those events.
#[verifier::rlimit(100)]
#[verifier::spinoff_prover]
proof fn lemma_parse_events_rest_exact(s: Seq<u8>, i: int, es: Seq<RecordedEvent>)
    requires
        0 <= i,
        i + enc_tail(es).len() + 1 <= s.len(),
        s.subrange(i, i + enc_tail(es).len() + 1) == enc_tail(es) + seq![93u8],
    ensures
        parse_events_rest(s, i) == Option::Some((es, i + enc_tail(es).len() + 1)),
    decreases es.len(),
{
    reveal(parse_events_rest);
    let whole = enc_tail(es) + seq![93u8];
    assert forall|m: int| i <= m < i + whole.len() implies #[trigger] s[m] == whole[m - i] by {
        assert(s.subrange(i, i + whole.len())[m - i] == s[m]);
    }
    if es.len() == 0 {
        assert(s[i] == 93);
        lemma_skip_ws_characterization(s, i, i);
    } else {
        assert(s[i] == 44);
        lemma_skip_ws_characterization(s, i, i);
        let e0 = es[0];
        let k = i + 1 + enc_event(e0).len();
        assert(s.subrange(i + 1, k) =~= enc_event(e0)) by {
            assert forall|m: int|
                0 <= m < enc_event(e0).len() implies #[trigger] s.subrange(i + 1, k)[m]
                == enc_event(e0)[m] by {
                assert(s.subrange(i + 1, k)[m] == s[i + 1 + m]);
                assert(s[i + 1 + m] == whole[1 + m]);
            }
        }
        lemma_parse_event_exact(s, i + 1, e0);
        let tail = es.drop_first();
        let tl = enc_tail(tail).len() + 1;
        assert(s.subrange(k, k + tl) =~= enc_tail(tail) + seq![93u8]) by {
            assert forall|m: int|
                0 <= m < tl implies #[trigger] s.subrange(k, k + tl)[m] == (enc_tail(tail)
                + seq![93u8])[m] by {
                assert(s.subrange(k, k + tl)[m] == s[k + m]);
                assert(s[k + m] == whole[(k + m) - i]);
                assert(whole[(k - i) + m] == (enc_tail(tail) + seq![93u8])[m]);
            }
        }
        lemma_parse_events_rest_exact(s, k, tail);
        assert(seq![e0] + tail =~= es);
    }
}

/// One parser pass over a canonical events array yields exactly its events.
#[verifier::rlimit(100)]
#[verifier::spinoff_prover]
#[verifier::rlimit(100)]
#[verifier::spinoff_prover]
proof fn lemma_events_enc_shape(s: Seq<u8>, i: int, es: Seq<RecordedEvent>)
    requires
        0 <= i,
        i + enc_events(es).len() <= s.len(),
        s.subrange(i, i + enc_events(es).len()) == enc_events(es),
        es.len() >= 1,
    ensures
        s.subrange(i + 1, i + 1 + enc_event(es[0]).len())
            == enc_event(es[0]),
        s.subrange(
            i + 1 + enc_event(es[0]).len(),
            i + 1 + enc_event(es[0]).len() + enc_tail(es.drop_first()).len() + 1,
        ) == enc_tail(es.drop_first()) + seq![93u8],
        s[i] == 91,
        s[i + 1] == 123,
        i + 1 + enc_event(es[0]).len() + enc_tail(es.drop_first()).len() + 1 == i + enc_events(
            es,
        ).len(),
{
    let enc = enc_events(es);
    let body = enc_events_body(es);
    lemma_enc_events_body_forward(es);
    let e0 = es[0];
    let tail = es.drop_first();
    let e0l = enc_event(e0).len() as int;
    let a = i + 1;
    let k = a + e0l;
    let tl = enc_tail(tail).len() + 1;
    assert forall|m: int| i <= m < i + enc.len() implies #[trigger] s[m] == enc[m - i] by {
        assert(s.subrange(i, i + enc.len())[m - i] == s[m]);
    }
    assert(body == enc_event(e0) + enc_tail(tail));
    assert(enc[0] == 91);
    assert(enc[1] == body[0]);
    assert(body[0] == enc_event(e0)[0]);
    assert(enc_event(e0)[0] == 123);
    assert(s.subrange(a, k) =~= enc_event(e0)) by {
        assert forall|m: int|
            0 <= m < e0l implies #[trigger] s.subrange(a, k)[m] == enc_event(e0)[m] by {
            assert(s.subrange(a, k)[m] == s[a + m]);
            assert(s[a + m] == enc[1 + m]);
            assert(enc[1 + m] == body[m]);
            assert(body[m] == enc_event(e0)[m]);
        }
    }
    assert(s.subrange(k, k + tl) =~= enc_tail(tail) + seq![93u8]) by {
        assert forall|m: int|
            0 <= m < tl implies #[trigger] s.subrange(k, k + tl)[m] == (enc_tail(tail)
            + seq![93u8])[m] by {
            assert(s.subrange(k, k + tl)[m] == s[k + m]);
            assert(s[k + m] == enc[1 + e0l + m]);
            if m < tl - 1 {
                assert(enc[1 + e0l + m] == body[e0l + m]);
                assert(body[e0l + m] == enc_tail(tail)[m]);
            } else {
                assert(enc[1 + e0l + m] == 93);
            }
        }
    }
}

/// One parser pass over a canonical events array yields exactly its events.
#[verifier::rlimit(100)]
#[verifier::spinoff_prover]
proof fn lemma_parse_events_exact(s: Seq<u8>, i: int, es: Seq<RecordedEvent>)
    requires
        0 <= i,
        i + enc_events(es).len() <= s.len(),
        s.subrange(i, i + enc_events(es).len()) == enc_events(es),
    ensures
        parse_events_at(s, i) == Option::Some((es, i + enc_events(es).len())),
{
    reveal(parse_events_at);
    let enc = enc_events(es);
    let a = i + 1;
    if es.len() == 0 {
        assert forall|m: int| i <= m < i + enc.len() implies #[trigger] s[m] == enc[m - i] by {
            assert(s.subrange(i, i + enc.len())[m - i] == s[m]);
        }
        assert(enc_events_body(es) =~= Seq::<u8>::empty());
        assert(enc[0] == 91);
        assert(s[i] == 91);
        lemma_expect_byte_exact(s, i, 91);
        assert(enc[1] == 93);
        assert(s[a] == 93);
        lemma_skip_ws_characterization(s, a, a);
    } else {
        lemma_events_enc_shape(s, i, es);
        lemma_expect_byte_exact(s, i, 91);
        lemma_skip_ws_characterization(s, a, a);
        let e0 = es[0];
        let tail = es.drop_first();
        let k = a + enc_event(e0).len();
        lemma_parse_event_exact(s, a, e0);
        lemma_parse_events_rest_exact(s, k, tail);
        assert(seq![e0] + tail =~= es);
    }
}

/// The encoded header, up to and including the colon before the events
/// array.
pub open spec fn enc_header(meta: RecordingMetadata) -> Seq<u8> {
    seq![123u8] + key_metadata() + seq![58u8] + seq![123u8] + key_width() + seq![58u8] + u64_dec(
        meta.width as nat,
    ) + seq![44u8] + key_height() + seq![58u8] + u64_dec(meta.height as nat) + seq![125u8]
        + seq![44u8] + key_events() + seq![58u8]
}

/// The parser consumes an encoded header exactly, reading back the
/// resolution.
#[verifier::rlimit(100)]
#[verifier::spinoff_prover]
proof fn lemma_parse_header_exact(s: Seq<u8>, meta: RecordingMetadata)
    requires
        enc_header(meta).len() <= s.len(),
        s.subrange(0, enc_header(meta).len() as int) == enc_header(meta),
    ensures
        ({
            let a = expect_byte(s, 0, 123);
            let b = expect_byte(s, expect_lit(s, a, key_metadata()), 58);
            let c = expect_byte(s, b, 123);
            let d = expect_byte(s, expect_lit(s, c, key_width()), 58);
            &&& parse_u64_token(s, d) == Option::Some(
                (
                    meta.width as u64,
                    d + u64_dec(meta.width as nat).len(),
                ),
            )
            &&& ({
                let e = d + u64_dec(meta.width as nat).len();
                let f = expect_byte(s, expect_lit(s, expect_byte(s, e, 44), key_height()), 58);
                &&& parse_u64_token(s, f) == Option::Some(
                    (
                        meta.height as u64,
                        f + u64_dec(meta.height as nat).len(),
                    ),
                )
                &&& ({
                    let g = f + u64_dec(meta.height as nat).len();
                    expect_byte(
                        s,
                        expect_lit(s, expect_byte(s, expect_byte(s, g, 125), 44), key_events()),
                        58,
                    ) == enc_header(meta).len()
                })
            })
        }),
{
    let enc = enc_header(meta);
    let wd = u64_dec(meta.width as nat);
    let hd = u64_dec(meta.height as nat);
    let p1 = 1int;
    let p2 = p1 + key_metadata().len();
    let p3 = p2 + 1;
    let p4 = p3 + 1;
    let p5 = p4 + key_width().len();
    let p6 = p5 + 1;
    let p7 = p6 + wd.len();
    let p8 = p7 + 1;
    let p9 = p8 + key_height().len();
    let p10 = p9 + 1;
    let p11 = p10 + hd.len();
    let p12 = p11 + 1;
    let p13 = p12 + 1;
    let p14 = p13 + key_events().len();
    let p15 = p14 + 1;
    assert(enc.len() == p15);
    assert forall|m: int| 0 <= m < enc.len() implies #[trigger] s[m] == enc[m] by {
        assert(s.subrange(0, enc.len() as int)[m] == s[m]);
    }
    lemma_digits_value_of_u64_dec(meta.width as nat);
    lemma_digits_value_of_u64_dec(meta.height as nat);
    assert(s[0] == 123);
    lemma_expect_byte_exact(s, 0, 123);
    assert(s.subrange(p1, p2) =~= key_metadata());
    lemma_expect_lit_exact(s, p1, key_metadata());
    assert(s[p2] == 58);
    lemma_expect_byte_exact(s, p2, 58);
    assert(s[p3] == 123);
    lemma_expect_byte_exact(s, p3, 123);
    assert(s.subrange(p4, p5) =~= key_width());
    lemma_expect_lit_exact(s, p4, key_width());
    assert(s[p5] == 58);
    lemma_expect_byte_exact(s, p5, 58);
    assert(s.subrange(p6, p7) =~= wd);
    assert(s[p7] == 44);
    lemma_parse_u64_exact(s, p6, meta.width as nat);
    lemma_expect_byte_exact(s, p7, 44);
    assert(s.subrange(p8, p9) =~= key_height());
    lemma_expect_lit_exact(s, p8, key_height());
    assert(s[p9] == 58);
    lemma_expect_byte_exact(s, p9, 58);
    assert(s.subrange(p10, p11) =~= hd);
    assert(s[p11] == 125);
    lemma_parse_u64_exact(s, p10, meta.height as nat);
    lemma_expect_byte_exact(s, p11, 125);
    assert(s[p12] == 44);
    lemma_expect_byte_exact(s, p12, 44);
    assert(s.subrange(p13, p14) =~= key_events());
    lemma_expect_lit_exact(s, p13, key_events());
    assert(s[p14] == 58);
    lemma_expect_byte_exact(s, p14, 58);
}

/// THE ROUND-TRIP LAW. Parsing the canonical encoding of any event log
/// yields exactly its metadata and its events. Together with the contracts
/// of [`event_log_to_json`] and [`parse_event_log`], saving a log and
/// loading the file back returns an equal log.
#[verifier::rlimit(100)]
#[verifier::spinoff_prover]
pub proof fn lemma_event_log_round_trip(meta: RecordingMetadata, es: Seq<RecordedEvent>)
    ensures
        parse_event_log_spec(enc_event_log(meta, es)) == Option::Some((meta, es)),
{
    let s = enc_event_log(meta, es);
    let hl = enc_header(meta).len() as int;
    let el = enc_events(es).len() as int;
    assert(s =~= enc_header(meta) + enc_events(es) + seq![125u8]);
    assert(s.len() == hl + el + 1);
    assert(s.subrange(0, hl) =~= enc_header(meta)) by {
        assert forall|m: int| 0 <= m < hl implies #[trigger] s.subrange(0, hl)[m]
            == enc_header(meta)[m] by {
            assert(s.subrange(0, hl)[m] == s[m]);
            assert(s[m] == (enc_header(meta) + enc_events(es) + seq![125u8])[m]);
        }
    }
    lemma_parse_header_exact(s, meta);
    assert(s.subrange(hl, hl + el) =~= enc_events(es)) by {
        assert forall|m: int| 0 <= m < el implies #[trigger] s.subrange(hl, hl + el)[m]
            == enc_events(es)[m] by {
            assert(s.subrange(hl, hl + el)[m] == s[hl + m]);
            assert(s[hl + m] == (enc_header(meta) + enc_events(es) + seq![125u8])[hl + m]);
        }
    }
    lemma_parse_events_exact(s, hl, es);
    assert(s[hl + el] == (enc_header(meta) + enc_events(es) + seq![125u8])[hl + el]);
    assert(s[hl + el] == 125);
    lemma_expect_byte_exact(s, hl + el, 125);
    assert(skip_ws(s, hl + el + 1) == s.len());
    // the first byte is an opening brace, so the legacy branch is not taken
    assert(s[0] == enc_header(meta)[0]);
    lemma_skip_ws_characterization(s, 0, 0);
    assert((meta.width as nat) as u64 as u32 == meta.width);
    assert((meta.height as nat) as u64 as u32 == meta.height);
}

/// THE LEGACY-FORM LAW. A bare array of events still loads, with the
/// metadata defaulting to 1920x1080.
pub proof fn lemma_legacy_array_round_trip(es: Seq<RecordedEvent>)
    ensures
        parse_event_log_spec(enc_events(es)) == Option::Some(
            ((RecordingMetadata { width: 1920, height: 1080 }), es),
        ),
{
    let s = enc_events(es);
    assert(s[0] == 91);
    lemma_skip_ws_characterization(s, 0, 0);
    assert(s.subrange(0, s.len() as int) =~= s);
    lemma_parse_events_exact(s, 0, es);
    assert(skip_ws(s, s.len() as int) == s.len());
}

} // verus!
