//! Byte-level parsers for the two small external text formats the stream
//! consumes: the header of a binary PPM frame file (magic line, a dimensions
//! line, a maxval line, then raw RGB triples) and the `numerator/denominator`
//! frame-rate fraction a video prober prints. The caller does the reading;
//! these functions only decode bytes.

use crate::color::Color;
use crate::frame::{Frame, FrameView};
use crate::levels::{digits_value, is_digit, lemma_digits_value_prefix};
use crate::Error;
use vstd::prelude::*;

verus! {

/// Whether a byte is ASCII whitespace other than a line break.
pub open spec fn is_sp(b: u8) -> bool {
    b == 32 || b == 9 || b == 11 || b == 12 || b == 13
}

/// The index of the first line break at or after `from`, or the end.
pub open spec fn line_end(s: Seq<u8>, from: int) -> int
    decreases s.len() - from,
{
    if from < 0 || from >= s.len() {
        s.len() as int
    } else if s[from] == 10 {
        from
    } else {
        line_end(s, from + 1)
    }
}

/// The index of the first non-blank byte at or after `from` (line breaks do
/// not count as blank), or the end.
pub open spec fn skip_sp(s: Seq<u8>, from: int) -> int
    decreases s.len() - from,
{
    if from < 0 || from >= s.len() {
        s.len() as int
    } else if is_sp(s[from]) {
        skip_sp(s, from + 1)
    } else {
        from
    }
}

/// The index just past the run of decimal digits starting at `from`.
pub open spec fn digits_end(s: Seq<u8>, from: int) -> int
    decreases s.len() - from,
{
    if from < 0 || from >= s.len() {
        s.len() as int
    } else if is_digit(s[from]) {
        digits_end(s, from + 1)
    } else {
        from
    }
}

/// The index of the first occurrence of `b` at or after `from`, or the end.
pub open spec fn find_byte(s: Seq<u8>, b: u8, from: int) -> int
    decreases s.len() - from,
{
    if from < 0 || from >= s.len() {
        s.len() as int
    } else if s[from] == b {
        from
    } else {
        find_byte(s, b, from + 1)
    }
}

/// A digit token ends cleanly when a blank, a line break or the end follows.
pub open spec fn token_boundary(s: Seq<u8>, at: int) -> bool {
    at >= s.len() || is_sp(s[at]) || s[at] == 10
}

/// Raw bytes as RGB triples, in order.
pub open spec fn colors_of(data: Seq<u8>) -> Seq<Color> {
    Seq::new(
        (data.len() / 3) as nat,
        |i: int| Color { r: data[3 * i], g: data[3 * i + 1], b: data[3 * i + 2] },
    )
}

/// What a PPM frame file denotes, if well-formed: the magic line is skipped,
/// the second line holds width and height as clean decimal tokens, the third
/// (maxval) line is skipped, and the rest are exactly `3 * width * height`
/// raw RGB bytes.
pub open spec fn parse_ppm_spec(s: Seq<u8>) -> Option<(int, int, Seq<Color>)> {
    let e1 = line_end(s, 0);
    if e1 >= s.len() {
        Option::None
    } else {
        let p0 = skip_sp(s, e1 + 1);
        let d1 = digits_end(s, p0);
        if d1 <= p0 || !token_boundary(s, d1) || digits_value(s.subrange(p0, d1)) > usize::MAX {
            Option::None
        } else {
            let w = digits_value(s.subrange(p0, d1));
            let p1 = skip_sp(s, d1);
            let d2 = digits_end(s, p1);
            if d2 <= p1 || !token_boundary(s, d2) || digits_value(s.subrange(p1, d2))
                > usize::MAX {
                Option::None
            } else {
                let h = digits_value(s.subrange(p1, d2));
                let e2 = line_end(s, e1 + 1);
                let data_start = if e2 >= s.len() {
                    s.len() as int
                } else {
                    let e3 = line_end(s, e2 + 1);
                    if e3 >= s.len() {
                        s.len() as int
                    } else {
                        e3 + 1
                    }
                };
                let data = s.subrange(data_start, s.len() as int);
                if data.len() == 3 * (w * h) {
                    Some((w, h, colors_of(data)))
                } else {
                    Option::None
                }
            }
        }
    }
}

/// What a frame-rate line denotes, if well-formed: a `numerator/denominator`
/// fraction of clean decimal tokens filling the first line, each fitting a
/// 32-bit signed value.
pub open spec fn parse_framerate_spec(s: Seq<u8>) -> Option<(int, int)> {
    let e = line_end(s, 0);
    let k = find_byte(s, 47, 0);
    if k >= e {
        Option::None
    } else if !(digits_end(s, 0) == k && k > 0 && digits_value(s.subrange(0, k)) <= i32::MAX) {
        Option::None
    } else if !(digits_end(s, k + 1) == e && e > k + 1 && digits_value(s.subrange(k + 1, e))
        <= i32::MAX) {
        Option::None
    } else {
        Some((digits_value(s.subrange(0, k)), digits_value(s.subrange(k + 1, e))))
    }
}

/// Finds the first line break at or after `from`.
fn find_line_end(s: &[u8], from: usize) -> (r: usize)
    requires
        from <= s@.len(),
    ensures
        r as int == line_end(s@, from as int),
        from <= r <= s@.len(),
        r < s@.len() ==> s@[r as int] == 10,
    decreases s@.len() - from,
{
    let mut i = from;
    while i < s.len() && s[i] != 10
        invariant
            from <= i <= s@.len(),
            line_end(s@, from as int) == line_end(s@, i as int),
        decreases s@.len() - i,
    {
        i = i + 1;
    }
    i
}

/// Finds the first non-blank byte at or after `from`.
fn skip_sp_exec(s: &[u8], from: usize) -> (r: usize)
    requires
        from <= s@.len(),
    ensures
        r as int == skip_sp(s@, from as int),
        from <= r <= s@.len(),
{
    let mut i = from;
    while i < s.len() && (s[i] == 32 || s[i] == 9 || s[i] == 11 || s[i] == 12 || s[i] == 13)
        invariant
            from <= i <= s@.len(),
            skip_sp(s@, from as int) == skip_sp(s@, i as int),
        decreases s@.len() - i,
    {
        i = i + 1;
    }
    i
}

/// Finds the end of the digit run starting at `from`.
fn digits_end_exec(s: &[u8], from: usize) -> (r: usize)
    requires
        from <= s@.len(),
    ensures
        r as int == digits_end(s@, from as int),
        from <= r <= s@.len(),
        forall|k: int| from as int <= k < r as int ==> is_digit(#[trigger] s@[k]),
{
    let mut i = from;
    while i < s.len() && 48 <= s[i] && s[i] <= 57
        invariant
            from <= i <= s@.len(),
            digits_end(s@, from as int) == digits_end(s@, i as int),
            forall|k: int| from as int <= k < i as int ==> is_digit(#[trigger] s@[k]),
        decreases s@.len() - i,
    {
        i = i + 1;
    }
    i
}

/// Finds the first occurrence of `b` at or after `from`.
fn find_byte_exec(s: &[u8], b: u8, from: usize) -> (r: usize)
    requires
        from <= s@.len(),
    ensures
        r as int == find_byte(s@, b, from as int),
        from <= r <= s@.len(),
    decreases s@.len() - from,
{
    let mut i = from;
    while i < s.len() && s[i] != b
        invariant
            from <= i <= s@.len(),
            find_byte(s@, b, from as int) == find_byte(s@, b, i as int),
        decreases s@.len() - i,
    {
        i = i + 1;
    }
    i
}

/// Reads the decimal value of the digit run `from..to`, if it fits the
/// machine word.
fn parse_usize_range(s: &[u8], from: usize, to: usize) -> (r: Option<usize>)
    requires
        from < to <= s@.len(),
        forall|k: int| from as int <= k < to as int ==> is_digit(#[trigger] s@[k]),
    ensures
        match r {
            Some(n) => n as int == digits_value(s@.subrange(from as int, to as int)),
            Option::None => digits_value(s@.subrange(from as int, to as int)) > usize::MAX,
        },
{
    let ghost whole = s@.subrange(from as int, to as int);
    let mut acc: usize = 0;
    let mut i = from;
    proof {
        assert(whole.take(0) =~= Seq::<u8>::empty());
    }
    while i < to
        invariant
            from <= i <= to <= s@.len(),
            whole == s@.subrange(from as int, to as int),
            forall|k: int| from as int <= k < to as int ==> is_digit(#[trigger] s@[k]),
            acc as int == digits_value(whole.take(i - from)),
        decreases to - i,
    {
        let b = s[i];
        let d = (b - 48) as usize;
        let wide = acc as u128 * 10 + d as u128;
        proof {
            assert(whole.take(i + 1 - from).drop_last() =~= whole.take(i - from));
            assert(whole.take(i + 1 - from).last() == s@[i as int]);
        }
        if wide > usize::MAX as u128 {
            proof {
                assert(forall|k: int| 0 <= k < whole.len() ==> is_digit(#[trigger] whole[k]));
                lemma_digits_value_prefix(whole, i + 1 - from);
                assert(whole.take(whole.len() as int) =~= whole);
            }
            return None;
        }
        acc = wide as usize;
        i = i + 1;
    }
    proof {
        assert(whole.take(to - from) =~= whole);
    }
    Some(acc)
}

/// Decodes one binary PPM frame file into a raster: the magic line is
/// skipped, the second line gives the dimensions, the maxval line is skipped,
/// and the remaining bytes must be exactly the raster's RGB triples. Anything
/// else is a parse error.
pub fn parse_ppm(bytes: &[u8]) -> (r: Result<Frame, Error>)
    ensures
        match parse_ppm_spec(bytes@) {
            Some((w, h, colors)) => r matches Ok(f) && f@ == (FrameView {
                width: w,
                height: h,
                data: colors,
            }) && f@.wf(),
            Option::None => r matches Err(e) && e is FileParseError,
        },
{
    let n = bytes.len();
    let e1 = find_line_end(bytes, 0);
    if e1 == n {
        return Err(Error::FileParseError("missing dimensions line".to_owned()));
    }
    let p0 = skip_sp_exec(bytes, e1 + 1);
    let d1 = digits_end_exec(bytes, p0);
    if d1 == p0 || (d1 < n && !(bytes[d1] == 32 || bytes[d1] == 9 || bytes[d1] == 11 || bytes[d1]
        == 12 || bytes[d1] == 13 || bytes[d1] == 10)) {
        return Err(Error::FileParseError("malformed width".to_owned()));
    }
    let w = match parse_usize_range(bytes, p0, d1) {
        Some(w) => w,
        Option::None => {
            return Err(Error::FileParseError("width out of range".to_owned()));
        },
    };
    let p1 = skip_sp_exec(bytes, d1);
    let d2 = digits_end_exec(bytes, p1);
    if d2 == p1 || (d2 < n && !(bytes[d2] == 32 || bytes[d2] == 9 || bytes[d2] == 11 || bytes[d2]
        == 12 || bytes[d2] == 13 || bytes[d2] == 10)) {
        return Err(Error::FileParseError("malformed height".to_owned()));
    }
    let h = match parse_usize_range(bytes, p1, d2) {
        Some(h) => h,
        Option::None => {
            return Err(Error::FileParseError("height out of range".to_owned()));
        },
    };
    let e2 = find_line_end(bytes, e1 + 1);
    let data_start = if e2 == n {
        n
    } else {
        let e3 = find_line_end(bytes, e2 + 1);
        if e3 == n {
            n
        } else {
            e3 + 1
        }
    };
    let data_len = n - data_start;
    let ghost data = bytes@.subrange(data_start as int, n as int);
    proof {
        assert(0 <= w as int * h as int <= 0xffffffffffffffff * 0xffffffffffffffff)
            by (nonlinear_arith)
            requires
                0 <= w as int <= 0xffffffffffffffff,
                0 <= h as int <= 0xffffffffffffffff,
        ;
    }
    let p = (w as u128) * (h as u128);
    if p > u64::MAX as u128 {
        proof {
            assert(3 * (w as int * h as int) >= w as int * h as int);
            assert(data.len() != 3 * (w as int * h as int));
        }
        return Err(Error::FileParseError("pixel data does not match dimensions".to_owned()));
    }
    if 3u128 * p != data_len as u128 {
        return Err(Error::FileParseError("pixel data does not match dimensions".to_owned()));
    }
    let px = data_len / 3;
    proof {
        assert(data.len() == 3 * (w as int * h as int));
        assert(px as int == w as int * h as int);
        assert(colors_of(data).len() == px as int);
    }
    let mut colors: Vec<Color> = Vec::new();
    let mut k: usize = 0;
    while k < px
        invariant
            k <= px,
            px as int == w as int * h as int,
            data == bytes@.subrange(data_start as int, n as int),
            data.len() == data_len as int,
            data_start + data_len == n <= bytes@.len(),
            data_len as int == 3 * (w as int * h as int),
            colors@.len() == k as int,
            forall|j: int| 0 <= j < k as int ==> colors@[j] == colors_of(data)[j],
        decreases px - k,
    {
        proof {
            assert(3 * (k as int) + 2 < data_len as int);
            assert(data[3 * (k as int)] == bytes@[data_start as int + 3 * (k as int)]);
            assert(data[3 * (k as int) + 1] == bytes@[data_start as int + 3 * (k as int) + 1]);
            assert(data[3 * (k as int) + 2] == bytes@[data_start as int + 3 * (k as int) + 2]);
        }
        let base = data_start + 3 * k;
        colors.push(Color { r: bytes[base], g: bytes[base + 1], b: bytes[base + 2] });
        k = k + 1;
    }
    let f = Frame::new(w, h, colors);
    proof {
        assert(f@.data =~= colors_of(data));
    }
    Ok(f)
}

/// Decodes the `numerator/denominator` frame-rate fraction that fills the
/// first line of a video prober's output. Anything else is a parse error.
pub fn parse_framerate(line: &str) -> (r: Result<(i32, i32), Error>)
    ensures
        match parse_framerate_spec(vstd::utf8::encode_utf8(line@)) {
            Some((num, den)) => r matches Ok(p) && p.0 as int == num && p.1 as int == den,
            Option::None => r matches Err(e) && e is FileParseError,
        },
{
    let bytes = line.as_bytes();
    let n = bytes.len();
    let e = find_line_end(bytes, 0);
    let k = find_byte_exec(bytes, 47, 0);
    if k >= e {
        return Err(Error::FileParseError("missing denominator".to_owned()));
    }
    let dn = digits_end_exec(bytes, 0);
    if !(dn == k && k > 0) {
        return Err(Error::FileParseError("malformed numerator".to_owned()));
    }
    let num = match parse_usize_range(bytes, 0, k) {
        Some(v) => v,
        Option::None => {
            return Err(Error::FileParseError("numerator out of range".to_owned()));
        },
    };
    if num > i32::MAX as usize {
        return Err(Error::FileParseError("numerator out of range".to_owned()));
    }
    let dd = digits_end_exec(bytes, k + 1);
    if !(dd == e && e > k + 1) {
        return Err(Error::FileParseError("malformed denominator".to_owned()));
    }
    let den = match parse_usize_range(bytes, k + 1, e) {
        Some(v) => v,
        Option::None => {
            return Err(Error::FileParseError("denominator out of range".to_owned()));
        },
    };
    if den > i32::MAX as usize {
        return Err(Error::FileParseError("denominator out of range".to_owned()));
    }
    Ok((num as i32, den as i32))
}

} // verus!
