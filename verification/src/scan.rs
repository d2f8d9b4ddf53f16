use vstd::prelude::*;

use crate::error::{DecodeError, ErrorKind};

verus! {

/// ASCII space, minus sign, and the digit range.
pub open spec fn is_digit(b: u8) -> bool {
    48 <= b <= 57
}

pub const SPACE: u8 = 32;

pub const MINUS: u8 = 45;

/// First index at or after `from` whose byte is not a decimal digit
/// (or the end of the sequence).
pub open spec fn digits_end(s: Seq<u8>, from: int) -> int
    decreases s.len() - from,
{
    if from < 0 || from >= s.len() {
        from
    } else if !is_digit(s[from]) {
        from
    } else {
        digits_end(s, from + 1)
    }
}

pub proof fn lemma_digits_end(s: Seq<u8>, from: int)
    requires
        0 <= from <= s.len(),
    ensures
        from <= digits_end(s, from) <= s.len(),
        forall|i: int| from <= i < digits_end(s, from) ==> is_digit(s[i]),
        digits_end(s, from) < s.len() ==> !is_digit(s[digits_end(s, from)]),
    decreases s.len() - from,
{
    if from < s.len() && is_digit(s[from]) {
        lemma_digits_end(s, from + 1);
    }
}

/// The value of the decimal digit run `s[from..to]`, read left to right.
pub open spec fn digits_val(s: Seq<u8>, from: int, to: int) -> int
    decreases to - from,
{
    if to <= from {
        0
    } else {
        digits_val(s, from, to - 1) * 10 + (s[to - 1] - 48)
    }
}

pub proof fn lemma_digits_val_bounds(s: Seq<u8>, from: int, to: int)
    requires
        0 <= from <= to <= s.len(),
        forall|i: int| from <= i < to ==> is_digit(s[i]),
    ensures
        digits_val(s, from, to) >= 0,
        forall|j: int|
            from <= j <= to ==> digits_val(s, from, to) >= #[trigger] digits_val(s, from, j),
    decreases to - from,
{
    if to > from {
        lemma_digits_val_bounds(s, from, to - 1);
        assert forall|j: int|
            from <= j <= to implies digits_val(s, from, to) >= #[trigger] digits_val(
            s,
            from,
            j,
        ) by {
            if j < to {
                assert(digits_val(s, from, to - 1) >= digits_val(s, from, j));
                assert(digits_val(s, from, to) >= digits_val(s, from, to - 1));
            }
        }
    }
}

/// The integer scanner's grammar and meaning, starting at boundary position
/// `i`: a run of values, each one ASCII space, an optional minus sign, and
/// one or more decimal digits; the end of the span terminates the run, and a
/// single trailing space is tolerated. `None` marks a format violation or a
/// value outside the `i32` range.
pub open spec fn spec_scan(s: Seq<u8>, i: int) -> Option<Seq<i32>>
    decreases s.len() - i,
    via spec_scan_decreases
{
    if i < 0 {
        None
    } else if i >= s.len() {
        Some(seq![])
    } else if s[i] != SPACE {
        None
    } else if i + 1 >= s.len() {
        Some(seq![])
    } else {
        let neg = s[i + 1] == MINUS;
        let vs = if neg {
            i + 2
        } else {
            i + 1
        };
        let ve = digits_end(s, vs);
        if ve <= vs {
            None
        } else {
            let v = if neg {
                -digits_val(s, vs, ve)
            } else {
                digits_val(s, vs, ve)
            };
            if v < -2147483648 || v > 2147483647 {
                None
            } else {
                match spec_scan(s, ve) {
                    Option::None => None,
                    Option::Some(rest) => Some(seq![v as i32] + rest),
                }
            }
        }
    }
}

#[via_fn]
proof fn spec_scan_decreases(s: Seq<u8>, i: int) {
    if 0 <= i && i + 1 < s.len() {
        lemma_digits_end(s, i + 1);
        lemma_digits_end(s, i + 2);
    }
}

fn scan_error() -> (r: DecodeError)
    ensures
        r.kind == ErrorKind::NumericParse,
{
    DecodeError {
        kind: ErrorKind::NumericParse,
        line: 0,
        cluster: None,
        expected: Vec::new(),
        found: Vec::new(),
    }
}

/// Scans one value boundary at `i`: either the span ends there (possibly
/// after one tolerated trailing space), or one space-delimited value is
/// read, returning it with the position after its digits.
fn scan_step(s: &Vec<u8>, i: usize) -> (r: Result<Option<(i32, usize)>, DecodeError>)
    requires
        i <= s@.len(),
    ensures
        r is Ok && r->Ok_0 is None ==> spec_scan(s@, i as int) == Some(Seq::<i32>::empty()),
        r is Ok && r->Ok_0 is Some ==> ({
            let pair = r->Ok_0->0;
            let v = pair.0;
            let j = pair.1;
            &&& i < j <= s@.len()
            &&& ((spec_scan(s@, i as int) is Some) == (spec_scan(s@, j as int) is Some))
            &&& (spec_scan(s@, j as int) is Some ==> spec_scan(s@, i as int)->Some_0 == seq![v]
                + spec_scan(s@, j as int)->Some_0)
        }),
        r is Err ==> spec_scan(s@, i as int) is None && r->Err_0.kind == ErrorKind::NumericParse,
{
    if i >= s.len() {
        assert(spec_scan(s@, i as int) == Some(Seq::<i32>::empty()));
        return Ok(None);
    }
    if s[i] != SPACE {
        return Err(scan_error());
    }
    if i + 1 >= s.len() {
        assert(spec_scan(s@, i as int) == Some(Seq::<i32>::empty()));
        return Ok(None);
    }
    let neg = s[i + 1] == MINUS;
    let vs: usize = if neg {
        i + 2
    } else {
        i + 1
    };
    proof {
        lemma_digits_end(s@, vs as int);
    }
    let ghost ve = digits_end(s@, vs as int);
    let mut j: usize = vs;
    let mut mag: i64 = 0;
    let mut overflowed = false;
    while j < s.len() && s[j] >= 48 && s[j] <= 57 && !overflowed
        invariant
            vs <= j <= ve <= s@.len(),
            i + 1 <= vs <= s@.len(),
            ve == digits_end(s@, vs as int),
            forall|t: int| vs <= t < ve ==> is_digit(s@[t]),
            ve < s@.len() ==> !is_digit(s@[ve]),
            mag == digits_val(s@, vs as int, j as int),
            !overflowed ==> 0 <= mag <= 2147483648,
            0 <= mag <= 21474836489,
            overflowed ==> digits_val(s@, vs as int, ve) > 2147483648,
        decreases s@.len() - j,
    {
        let d = s[j] - 48;
        assert(is_digit(s@[j as int]));
        assert(j < ve) by {
            if j == ve {
                assert(!is_digit(s@[ve]));
            }
        }
        mag = mag * 10 + (d as i64);
        j = j + 1;
        if mag > 2147483648 {
            proof {
                lemma_digits_val_bounds(s@, vs as int, ve);
                assert(digits_val(s@, vs as int, ve) >= digits_val(s@, vs as int, j as int));
            }
            overflowed = true;
        }
    }
    if overflowed {
        assert(spec_scan(s@, i as int) is None);
        return Err(scan_error());
    }
    assert(j == ve);
    if j == vs {
        // no digits where a value was required
        assert(spec_scan(s@, i as int) is None);
        return Err(scan_error());
    }
    if !neg && mag > 2147483647 {
        assert(spec_scan(s@, i as int) is None);
        return Err(scan_error());
    }
    let v: i32 = if neg {
        assert(-mag >= -2147483648);
        (-mag) as i32
    } else {
        mag as i32
    };
    proof {
        let sp = spec_scan(s@, i as int);
        let vspec: int = if neg {
            -digits_val(s@, vs as int, ve)
        } else {
            digits_val(s@, vs as int, ve)
        };
        assert(v as int == vspec);
        assert((sp is Some) == (spec_scan(s@, ve) is Some));
        if spec_scan(s@, ve) is Some {
            assert(sp->Some_0 =~= seq![v] + spec_scan(s@, ve)->Some_0);
        }
    }
    Ok(Some((v, j)))
}

/// Scans one run of optionally-negative, space-delimited decimal integers,
/// starting at `from`, which must sit on the implicit delimiter before the
/// first value. Returns exactly the sequence that the grammar
/// (`spec_scan`) assigns to the span, or a numeric-parse error where the
/// grammar assigns none. This is the one-lane instance of the scanner.
pub fn scan_ints_from(s: &Vec<u8>, from: usize) -> (r: Result<Vec<i32>, DecodeError>)
    requires
        from <= s@.len(),
    ensures
        (r is Ok) == (spec_scan(s@, from as int) is Some),
        r is Ok ==> r->Ok_0@ == spec_scan(s@, from as int)->Some_0,
        r is Err ==> r->Err_0.kind == ErrorKind::NumericParse,
{
    let ghost whole = spec_scan(s@, from as int);
    let mut out: Vec<i32> = Vec::new();
    let mut i: usize = from;
    loop
        invariant
            from <= i <= s@.len(),
            whole == spec_scan(s@, from as int),
            (whole is Some) == (spec_scan(s@, i as int) is Some),
            spec_scan(s@, i as int) is Some ==> whole->Some_0 == out@ + spec_scan(
                s@,
                i as int,
            )->Some_0,
        decreases s@.len() + 1 - i,
    {
        match scan_step(s, i) {
            Ok(Some(pair)) => {
                let (v, j) = pair;
                proof {
                    if spec_scan(s@, j as int) is Some {
                        assert(out@.push(v) + spec_scan(s@, j as int)->Some_0 =~= out@ + spec_scan(
                            s@,
                            i as int,
                        )->Some_0);
                    }
                }
                out.push(v);
                i = j;
            },
            Ok(None) => {
                assert(whole->Some_0 =~= out@);
                return Ok(out);
            },
            Err(e) => {
                return Err(e);
            },
        }
    }
}

/// The widest span among the lanes.
fn max_span_len(spans: &Vec<Vec<u8>>) -> (r: usize)
    ensures
        forall|l: int| 0 <= l < spans@.len() ==> (#[trigger] spans@[l]@).len() <= r,
{
    let mut m: usize = 0;
    let mut l: usize = 0;
    while l < spans.len()
        invariant
            0 <= l <= spans@.len(),
            forall|t: int| 0 <= t < l ==> (#[trigger] spans@[t]@).len() <= m,
        decreases spans@.len() - l,
    {
        if spans[l].len() > m {
            m = spans[l].len();
        }
        l = l + 1;
    }
    m
}

/// Some lane is still scanning.
fn any_active(done: &Vec<bool>) -> (r: bool)
    ensures
        r == exists|l: int| 0 <= l < done@.len() && !(#[trigger] done@[l]),
{
    let mut l: usize = 0;
    while l < done.len()
        invariant
            0 <= l <= done@.len(),
            forall|t: int| 0 <= t < l ==> #[trigger] done@[t],
        decreases done@.len() - l,
    {
        if !done[l] {
            return true;
        }
        l = l + 1;
    }
    false
}

/// The lane-parameterized scanner: scans several independent integer
/// streams with interleaved cursors, one value per lane per round, the way
/// a vectorized backend widens the same control flow. The lane count is a
/// performance parameter only: each lane's output is exactly what the
/// one-lane grammar assigns to its span. On a format violation the error
/// names the lowest failing lane in its `line` field.
pub fn scan_lanes(spans: &Vec<Vec<u8>>, starts: &Vec<usize>) -> (r: Result<
    Vec<Vec<i32>>,
    DecodeError,
>)
    requires
        starts@.len() == spans@.len(),
        forall|l: int| 0 <= l < spans@.len() ==> (#[trigger] starts@[l]) <= spans@[l]@.len(),
    ensures
        (r is Ok) == (forall|l: int|
            0 <= l < spans@.len() ==> spec_scan(#[trigger] spans@[l]@, starts@[l] as int) is Some),
        r is Ok ==> r->Ok_0@.len() == spans@.len(),
        r is Ok ==> forall|l: int|
            0 <= l < spans@.len() ==> (#[trigger] r->Ok_0@[l])@ == spec_scan(
                spans@[l]@,
                starts@[l] as int,
            )->Some_0,
        r is Err ==> r->Err_0.kind == ErrorKind::NumericParse && r->Err_0.line < spans@.len()
            && spec_scan(spans@[r->Err_0.line as int]@, starts@[r->Err_0.line as int] as int)
            is None && (forall|l: int|
            0 <= l < r->Err_0.line ==> spec_scan(
                #[trigger] spans@[l]@,
                starts@[l] as int,
            ) is Some),
{
    let lanes = spans.len();
    let mut cursors: Vec<usize> = Vec::new();
    let mut done: Vec<bool> = Vec::new();
    let mut outs: Vec<Vec<i32>> = Vec::new();
    let mut l: usize = 0;
    while l < lanes
        invariant
            0 <= l <= lanes == spans@.len() == starts@.len(),
            cursors@.len() == l && done@.len() == l && outs@.len() == l,
            forall|t: int| 0 <= t < l ==> (#[trigger] cursors@[t]) == starts@[t],
            forall|t: int| 0 <= t < l ==> !(#[trigger] done@[t]),
            forall|t: int| 0 <= t < l ==> (#[trigger] outs@[t])@.len() == 0,
        decreases lanes - l,
    {
        cursors.push(starts[l]);
        done.push(false);
        outs.push(Vec::new());
        l = l + 1;
    }

    let bound = max_span_len(spans);
    let mut round: u128 = 0;
    let mut failed = false;
    let mut go = any_active(&done);
    while !failed && go
        invariant
            go == exists|l2: int| 0 <= l2 < lanes && !(#[trigger] done@[l2]),
            lanes == spans@.len() == starts@.len(),
            cursors@.len() == lanes && done@.len() == lanes && outs@.len() == lanes,
            forall|l2: int| 0 <= l2 < lanes ==> (#[trigger] spans@[l2]@).len() <= bound,
            forall|l2: int|
                0 <= l2 < lanes ==> starts@[l2] <= #[trigger] cursors@[l2] <= spans@[l2]@.len(),
            !failed ==> (forall|l2: int|
                0 <= l2 < lanes && !(#[trigger] done@[l2]) ==> cursors@[l2] >= starts@[l2]
                    + round),
            forall|l2: int|
                0 <= l2 < lanes && !(#[trigger] done@[l2]) ==> ((spec_scan(
                    spans@[l2]@,
                    starts@[l2] as int,
                ) is Some) == (spec_scan(spans@[l2]@, cursors@[l2] as int) is Some)),
            forall|l2: int|
                0 <= l2 < lanes && !(#[trigger] done@[l2]) && spec_scan(
                    spans@[l2]@,
                    cursors@[l2] as int,
                ) is Some ==> spec_scan(spans@[l2]@, starts@[l2] as int)->Some_0 == outs@[l2]@
                    + spec_scan(spans@[l2]@, cursors@[l2] as int)->Some_0,
            forall|l2: int|
                0 <= l2 < lanes && (#[trigger] done@[l2]) ==> spec_scan(
                    spans@[l2]@,
                    starts@[l2] as int,
                ) is Some && outs@[l2]@ == spec_scan(spans@[l2]@, starts@[l2] as int)->Some_0,
            round <= bound as u128 + 1,
            failed ==> exists|l2: int|
                0 <= l2 < lanes && spec_scan(#[trigger] spans@[l2]@, starts@[l2] as int) is None,
        decreases bound as u128 + 2 - round,
    {
        proof {
            let witness = choose|l2: int| 0 <= l2 < lanes && !(#[trigger] done@[l2]);
            assert(cursors@[witness] >= starts@[witness] + round);
            assert(round <= bound as u128);
        }
        let mut lane: usize = 0;
        let ghost round0 = round;
        while lane < lanes && !failed
            invariant
                0 <= lane <= lanes == spans@.len() == starts@.len(),
                cursors@.len() == lanes && done@.len() == lanes && outs@.len() == lanes,
                forall|l2: int| 0 <= l2 < lanes ==> (#[trigger] spans@[l2]@).len() <= bound,
                forall|l2: int|
                    0 <= l2 < lanes ==> starts@[l2] <= #[trigger] cursors@[l2]
                        <= spans@[l2]@.len(),
                round == round0 && round0 <= bound as u128,
                !failed ==> (forall|l2: int|
                    0 <= l2 < lane && !(#[trigger] done@[l2]) ==> cursors@[l2] >= starts@[l2]
                        + round0 + 1),
                !failed ==> (forall|l2: int|
                    lane <= l2 < lanes && !(#[trigger] done@[l2]) ==> cursors@[l2]
                        >= starts@[l2] + round0),
                forall|l2: int|
                    0 <= l2 < lanes && !(#[trigger] done@[l2]) ==> ((spec_scan(
                        spans@[l2]@,
                        starts@[l2] as int,
                    ) is Some) == (spec_scan(spans@[l2]@, cursors@[l2] as int) is Some)),
                forall|l2: int|
                    0 <= l2 < lanes && !(#[trigger] done@[l2]) && spec_scan(
                        spans@[l2]@,
                        cursors@[l2] as int,
                    ) is Some ==> spec_scan(spans@[l2]@, starts@[l2] as int)->Some_0
                        == outs@[l2]@ + spec_scan(spans@[l2]@, cursors@[l2] as int)->Some_0,
                forall|l2: int|
                    0 <= l2 < lanes && (#[trigger] done@[l2]) ==> spec_scan(
                        spans@[l2]@,
                        starts@[l2] as int,
                    ) is Some && outs@[l2]@ == spec_scan(spans@[l2]@, starts@[l2] as int)->Some_0,
                failed ==> exists|l2: int|
                    0 <= l2 < lanes && spec_scan(
                        #[trigger] spans@[l2]@,
                        starts@[l2] as int,
                    ) is None,
            decreases lanes - lane,
        {
            if !done[lane] {
                let cur = cursors[lane];
                assert(cur <= spans@[lane as int]@.len());
                match scan_step(&spans[lane], cur) {
                    Ok(Some(pair)) => {
                        let (v, j) = pair;
                        let ghost prev_out = outs@[lane as int]@;
                        let mut row = outs.remove(lane);
                        row.push(v);
                        outs.insert(lane, row);
                        cursors[lane] = j;
                        proof {
                            assert(outs@[lane as int]@ =~= prev_out.push(v));
                            if spec_scan(spans@[lane as int]@, j as int) is Some {
                                assert(prev_out.push(v) + spec_scan(
                                    spans@[lane as int]@,
                                    j as int,
                                )->Some_0 =~= prev_out + spec_scan(
                                    spans@[lane as int]@,
                                    cur as int,
                                )->Some_0);
                            }
                        }
                    },
                    Ok(None) => {
                        done[lane] = true;
                        assert(outs@[lane as int]@ =~= outs@[lane as int]@ + Seq::<i32>::empty());
                    },
                    Err(e) => {
                        failed = true;
                        assert(spec_scan(
                            spans@[lane as int]@,
                            starts@[lane as int] as int,
                        ) is None);
                    },
                }
            }
            lane = lane + 1;
        }
        round = round + 1;
        go = any_active(&done);
    }
    if failed {
        // attribute the failure to the lowest failing lane, rescanning in
        // lane order
        let mut l2: usize = 0;
        while l2 < lanes
            invariant
                0 <= l2 <= lanes == spans@.len() == starts@.len(),
                forall|t: int| 0 <= t < spans@.len() ==> (#[trigger] starts@[t])
                    <= spans@[t]@.len(),
                forall|t: int|
                    0 <= t < l2 ==> spec_scan(#[trigger] spans@[t]@, starts@[t] as int) is Some,
                exists|t: int|
                    0 <= t < lanes && spec_scan(#[trigger] spans@[t]@, starts@[t] as int) is None,
            decreases lanes - l2,
        {
            match scan_ints_from(&spans[l2], starts[l2]) {
                Ok(_) => {
                    l2 = l2 + 1;
                },
                Err(_) => {
                    return Err(
                        DecodeError {
                            kind: ErrorKind::NumericParse,
                            line: l2,
                            cluster: None,
                            expected: Vec::new(),
                            found: Vec::new(),
                        },
                    );
                },
            }
        }
        proof {
            let bad = choose|t: int|
                0 <= t < lanes && spec_scan(#[trigger] spans@[t]@, starts@[t] as int) is None;
            assert(spec_scan(spans@[bad]@, starts@[bad] as int) is Some);
            assert(false);
        }
    }
    assert(!(exists|l2: int| 0 <= l2 < lanes && !(#[trigger] done@[l2])));
    proof {
        assert forall|l2: int| 0 <= l2 < lanes implies spec_scan(
            #[trigger] spans@[l2]@,
            starts@[l2] as int,
        ) is Some && outs@[l2]@ == spec_scan(spans@[l2]@, starts@[l2] as int)->Some_0 by {
            if !done@[l2] {
                assert(exists|t: int| 0 <= t < lanes && !(#[trigger] done@[t]));
            }
            assert(done@[l2]);
        }
    }
    Ok(outs)
}

/// The meaning of an unsigned decimal field at `from`: one or more digits,
/// reaching the end of the span when `require_end` is set and otherwise
/// either the end or a space, with a value that fits `usize`.
pub open spec fn spec_parse_usize(s: Seq<u8>, from: int, require_end: bool) -> Option<usize> {
    if from < 0 || from > s.len() {
        None
    } else {
        let e = digits_end(s, from);
        if e == from {
            None
        } else if require_end && e < s.len() {
            None
        } else if !require_end && e < s.len() && s[e] != SPACE {
            None
        } else {
            let v = digits_val(s, from, e);
            if v > usize::MAX {
                None
            } else {
                Some(v as usize)
            }
        }
    }
}

/// Parses an unsigned decimal field starting at `from`, exactly as
/// `spec_parse_usize` reads it.
pub fn parse_usize_at(s: &Vec<u8>, from: usize, require_end: bool) -> (r: Result<
    usize,
    DecodeError,
>)
    requires
        from <= s@.len(),
    ensures
        (r is Ok) == (spec_parse_usize(s@, from as int, require_end) is Some),
        r is Ok ==> r->Ok_0 == spec_parse_usize(s@, from as int, require_end)->Some_0,
        r is Err ==> r->Err_0.kind == ErrorKind::NumericParse,
{
    proof {
        lemma_digits_end(s@, from as int);
    }
    let ghost e = digits_end(s@, from as int);
    let mut j: usize = from;
    let mut acc: u128 = 0;
    while j < s.len() && s[j] >= 48 && s[j] <= 57
        invariant
            from <= j <= e <= s@.len(),
            e == digits_end(s@, from as int),
            forall|t: int| from <= t < e ==> is_digit(s@[t]),
            e < s@.len() ==> !is_digit(s@[e]),
            acc == digits_val(s@, from as int, j as int),
            acc <= usize::MAX,
        decreases s@.len() - j,
    {
        assert(j < e) by {
            if j == e {
                assert(!is_digit(s@[e]));
            }
        }
        acc = acc * 10 + ((s[j] - 48) as u128);
        j = j + 1;
        if acc > usize::MAX as u128 {
            proof {
                lemma_digits_val_bounds(s@, from as int, e);
                assert(digits_val(s@, from as int, e) >= digits_val(s@, from as int, j as int));
                assert(spec_parse_usize(s@, from as int, require_end) is None);
            }
            return Err(scan_error());
        }
    }
    assert(j == e);
    if j == from {
        // no digits where a value was required
        return Err(scan_error());
    }
    if require_end && j < s.len() {
        // stray byte after the digits
        return Err(scan_error());
    }
    if !require_end && j < s.len() && s[j] != SPACE {
        // the digits must end the line or be followed by a delimiter
        return Err(scan_error());
    }
    Ok(acc as usize)
}

/// The Integer Scanner's meaning for a whole span: the delimiter before the
/// first value is implicit, so the first value may begin directly at the
/// start; where the span instead opens with a literal space, as the runs do
/// in mid-line position, the boundary grammar (`spec_scan`) takes over from
/// there. Every later value is separated by a single space.
pub open spec fn spec_scan_values(s: Seq<u8>) -> Option<Seq<i32>> {
    if s.len() == 0 {
        Some(seq![])
    } else if s[0] == SPACE {
        spec_scan(s, 0)
    } else {
        let neg = s[0] == MINUS;
        let vs = if neg {
            1int
        } else {
            0int
        };
        let ve = digits_end(s, vs);
        if ve <= vs {
            None
        } else {
            let v = if neg {
                -digits_val(s, vs, ve)
            } else {
                digits_val(s, vs, ve)
            };
            if v < -2147483648 || v > 2147483647 {
                None
            } else {
                match spec_scan(s, ve) {
                    Option::None => None,
                    Option::Some(rest) => Some(seq![v as i32] + rest),
                }
            }
        }
    }
}

/// Scans the first value of a span that begins with it directly, returning
/// it with the position after its digits.
fn scan_first_value(s: &Vec<u8>) -> (r: Result<(i32, usize), DecodeError>)
    requires
        s@.len() > 0,
        s@[0] != SPACE,
    ensures
        r is Ok ==> ({
            let v = r->Ok_0.0;
            let j = r->Ok_0.1;
            &&& 0 < j <= s@.len()
            &&& ((spec_scan_values(s@) is Some) == (spec_scan(s@, j as int) is Some))
            &&& (spec_scan(s@, j as int) is Some ==> spec_scan_values(s@)->Some_0 == seq![v]
                + spec_scan(s@, j as int)->Some_0)
        }),
        r is Err ==> spec_scan_values(s@) is None && r->Err_0.kind == ErrorKind::NumericParse,
{
    let neg = s[0] == MINUS;
    let vs: usize = if neg {
        1
    } else {
        0
    };
    proof {
        lemma_digits_end(s@, vs as int);
    }
    let ghost ve = digits_end(s@, vs as int);
    let mut j: usize = vs;
    let mut mag: i64 = 0;
    let mut overflowed = false;
    while j < s.len() && s[j] >= 48 && s[j] <= 57 && !overflowed
        invariant
            vs <= j <= ve <= s@.len(),
            vs <= 1,
            s@.len() > 0 && s@[0] != SPACE,
            neg == (s@[0] == MINUS),
            vs == if neg {
                1int
            } else {
                0int
            },
            ve == digits_end(s@, vs as int),
            forall|t: int| vs <= t < ve ==> is_digit(s@[t]),
            ve < s@.len() ==> !is_digit(s@[ve]),
            mag == digits_val(s@, vs as int, j as int),
            !overflowed ==> 0 <= mag <= 2147483648,
            0 <= mag <= 21474836489,
            overflowed ==> digits_val(s@, vs as int, ve) > 2147483648,
        decreases s@.len() - j,
    {
        let d = s[j] - 48;
        assert(is_digit(s@[j as int]));
        assert(j < ve) by {
            if j == ve {
                assert(!is_digit(s@[ve]));
            }
        }
        mag = mag * 10 + (d as i64);
        j = j + 1;
        if mag > 2147483648 {
            proof {
                lemma_digits_val_bounds(s@, vs as int, ve);
                assert(digits_val(s@, vs as int, ve) >= digits_val(s@, vs as int, j as int));
            }
            overflowed = true;
        }
    }
    if overflowed {
        assert(spec_scan_values(s@) is None);
        return Err(scan_error());
    }
    assert(j == ve);
    if j == vs {
        // no digits where the first value was required
        assert(spec_scan_values(s@) is None);
        return Err(scan_error());
    }
    if !neg && mag > 2147483647 {
        assert(spec_scan_values(s@) is None);
        return Err(scan_error());
    }
    let v: i32 = if neg {
        assert(-mag >= -2147483648);
        (-mag) as i32
    } else {
        mag as i32
    };
    proof {
        let vspec: int = if neg {
            -digits_val(s@, vs as int, ve)
        } else {
            digits_val(s@, vs as int, ve)
        };
        assert(v as int == vspec);
        if spec_scan(s@, ve) is Some {
            assert(spec_scan_values(s@)->Some_0 =~= seq![v] + spec_scan(s@, ve)->Some_0);
        }
    }
    Ok((v, j))
}

/// The Integer Scanner: parses an ASCII span of optionally-negative decimal
/// integers separated by single spaces into the `i32` sequence the grammar
/// assigns. The delimiter before the first value is implicit: the first
/// value may begin directly at the start of the span, or after one literal
/// space as the runs appear in mid-line position.
pub fn parse_space_separated_ints(s: &Vec<u8>) -> (r: Result<Vec<i32>, DecodeError>)
    ensures
        (r is Ok) == (spec_scan_values(s@) is Some),
        r is Ok ==> r->Ok_0@ == spec_scan_values(s@)->Some_0,
        r is Err ==> r->Err_0.kind == ErrorKind::NumericParse,
{
    if s.len() == 0 {
        let empty: Vec<i32> = Vec::new();
        assert(empty@ =~= spec_scan_values(s@)->Some_0);
        return Ok(empty);
    }
    if s[0] == SPACE {
        return scan_ints_from(s, 0);
    }
    let first = match scan_first_value(s) {
        Ok(pair) => pair,
        Err(e) => {
            return Err(e);
        },
    };
    let (v, j) = first;
    match scan_ints_from(s, j) {
        Ok(mut rest) => {
            let ghost tail = rest@;
            rest.insert(0, v);
            assert(rest@ =~= seq![v] + tail);
            Ok(rest)
        },
        Err(e) => Err(e),
    }
}

} // verus!

