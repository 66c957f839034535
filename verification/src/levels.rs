//! Compression level presets and their numeric parameter tables: the
//! threshold-gated codec reads a luma threshold and a brightness-dependent
//! chroma threshold from its level, the budget-ranked codec reads a pixel
//! budget. A level argument is parsed from a preset name or a number.

use crate::Error;
use vstd::prelude::*;
use vstd::utf8::encode_utf8;

verus! {

/// A compression level as given on the command line: a named preset or a
/// numeric pixel budget.
#[derive(Debug, Clone, Copy, PartialEq, Eq, Structural)]
pub enum CompressionLevelArg {
    Off,
    Low,
    Medium,
    High,
    TrashCompactor,
    Number(usize),
}

/// A preset level of the threshold-gated codec.
#[derive(Debug, Clone, Copy, PartialEq, Eq, Structural)]
pub enum CompressionLevelV1 {
    Off,
    Low,
    Medium,
    High,
    TrashCompactor,
}

/// The luma threshold of a preset: a pixel whose luma moved by more than this
/// is retransmitted.
pub open spec fn luma_threshold_of(level: CompressionLevelV1) -> int {
    match level {
        CompressionLevelV1::Off => 0,
        CompressionLevelV1::Low => 3,
        CompressionLevelV1::Medium => 7,
        CompressionLevelV1::High => 15,
        CompressionLevelV1::TrashCompactor => 32,
    }
}

/// The chroma threshold of a preset at a given predecessor luma `y` in
/// 0..=255. The threshold shrinks as `y` grows: chroma error is better masked
/// in dark regions, so bright pixels get a stricter tolerance.
pub open spec fn chroma_threshold_of(level: CompressionLevelV1, y: int) -> int {
    match level {
        CompressionLevelV1::Off => 0,
        CompressionLevelV1::Low => (8 * (255 - y)) / 255,
        CompressionLevelV1::Medium => (16 * (6502500 - 85 * (y * y))) / 6502500,
        CompressionLevelV1::High => (32 * (6502500 - 75 * (y * y))) / 6502500,
        CompressionLevelV1::TrashCompactor => 64,
    }
}

impl CompressionLevelV1 {
    pub fn luminance_treshold(&self) -> (t: u16)
        ensures
            t as int == luma_threshold_of(*self),
    {
        match self {
            CompressionLevelV1::Off => 0,
            CompressionLevelV1::Low => 3,
            CompressionLevelV1::Medium => 7,
            CompressionLevelV1::High => 15,
            CompressionLevelV1::TrashCompactor => 32,
        }
    }

    pub fn chroma_threshold(&self, y: u8) -> (t: u16)
        ensures
            t as int == chroma_threshold_of(*self, y as int),
    {
        match self {
            CompressionLevelV1::Off => 0,
            CompressionLevelV1::Low => ((8 * (255 - y as u32)) / 255) as u16,
            CompressionLevelV1::Medium => {
                proof {
                    lemma_luma_square_bound(y);
                }
                let y2 = y as u32 * y as u32;
                ((16 * (6502500 - 85 * y2)) / 6502500) as u16
            },
            CompressionLevelV1::High => {
                proof {
                    lemma_luma_square_bound(y);
                }
                let y2 = y as u32 * y as u32;
                ((32 * (6502500 - 75 * y2)) / 6502500) as u16
            },
            CompressionLevelV1::TrashCompactor => 64,
        }
    }

    /// Picks the preset for a level argument; a numeric budget has no
    /// threshold preset and is rejected.
    pub fn try_from_arg(arg: CompressionLevelArg) -> (r: Result<CompressionLevelV1, Error>)
        ensures
            match arg {
                CompressionLevelArg::Off => r == Ok::<_, Error>(CompressionLevelV1::Off),
                CompressionLevelArg::Low => r == Ok::<_, Error>(CompressionLevelV1::Low),
                CompressionLevelArg::Medium => r == Ok::<_, Error>(CompressionLevelV1::Medium),
                CompressionLevelArg::High => r == Ok::<_, Error>(CompressionLevelV1::High),
                CompressionLevelArg::TrashCompactor => r == Ok::<_, Error>(
                    CompressionLevelV1::TrashCompactor,
                ),
                CompressionLevelArg::Number(_) => r matches Err(e) && e matches
                    Error::InvalidArgs(_),
            },
    {
        match arg {
            CompressionLevelArg::Off => Ok(CompressionLevelV1::Off),
            CompressionLevelArg::Low => Ok(CompressionLevelV1::Low),
            CompressionLevelArg::Medium => Ok(CompressionLevelV1::Medium),
            CompressionLevelArg::High => Ok(CompressionLevelV1::High),
            CompressionLevelArg::TrashCompactor => Ok(CompressionLevelV1::TrashCompactor),
            CompressionLevelArg::Number(_) => Err(
                Error::InvalidArgs("Invalid compression level for V1".to_owned()),
            ),
        }
    }
}

/// The parameter of the budget-ranked codec: how many pixel updates one frame
/// may spend.
#[derive(Debug, Clone, Copy, PartialEq, Eq, Structural)]
pub struct CompressionLevelV2 {
    pub target_pixels_per_frame: usize,
}

impl CompressionLevelV2 {
    pub fn new(target_pixels_per_frame: usize) -> (r: CompressionLevelV2)
        ensures
            r.target_pixels_per_frame == target_pixels_per_frame,
    {
        CompressionLevelV2 { target_pixels_per_frame }
    }

    /// The pixel budget a level argument denotes: each named preset maps to
    /// a fixed per-frame budget, a numeric level is the budget itself.
    pub fn from_arg(arg: CompressionLevelArg) -> (r: CompressionLevelV2)
        ensures
            r.target_pixels_per_frame == match arg {
                CompressionLevelArg::Off => 0usize,
                CompressionLevelArg::Low => 960000usize,
                CompressionLevelArg::Medium => 240000usize,
                CompressionLevelArg::High => 60000usize,
                CompressionLevelArg::TrashCompactor => 10000usize,
                CompressionLevelArg::Number(n) => n,
            },
    {
        match arg {
            CompressionLevelArg::Off => CompressionLevelV2::new(0),
            CompressionLevelArg::Low => CompressionLevelV2::new(960000),
            CompressionLevelArg::Medium => CompressionLevelV2::new(240000),
            CompressionLevelArg::High => CompressionLevelV2::new(60000),
            CompressionLevelArg::TrashCompactor => CompressionLevelV2::new(10000),
            CompressionLevelArg::Number(n) => CompressionLevelV2::new(n),
        }
    }

    /// Takes the numeric budget of a level argument; named presets carry no
    /// budget and are rejected.
    pub fn try_from_arg(arg: CompressionLevelArg) -> (r: Result<CompressionLevelV2, Error>)
        ensures
            match arg {
                CompressionLevelArg::Number(n) => r == Ok::<_, Error>(
                    CompressionLevelV2 { target_pixels_per_frame: n },
                ),
                _ => r matches Err(e) && e matches Error::InvalidArgs(_),
            },
    {
        match arg {
            CompressionLevelArg::Number(n) => Ok(CompressionLevelV2::new(n)),
            _ => Err(Error::InvalidArgs("Invalid compression level for V2".to_owned())),
        }
    }
}

/// The shape of the chroma table: the tolerance never grows as the
/// predecessor luma grows, so brighter pixels are judged more strictly.
pub proof fn lemma_chroma_threshold_antitone(level: CompressionLevelV1, y1: int, y2: int)
    requires
        0 <= y1 <= y2 <= 255,
    ensures
        chroma_threshold_of(level, y1) >= chroma_threshold_of(level, y2),
{
    match level {
        CompressionLevelV1::Off => {},
        CompressionLevelV1::Low => {
            vstd::arithmetic::div_mod::lemma_div_is_ordered(
                8 * (255 - y2),
                8 * (255 - y1),
                255,
            );
        },
        CompressionLevelV1::Medium => {
            assert(y1 * y1 <= y2 * y2) by (nonlinear_arith)
                requires
                    0 <= y1 <= y2,
            ;
            vstd::arithmetic::div_mod::lemma_div_is_ordered(
                16 * (6502500 - 85 * (y2 * y2)),
                16 * (6502500 - 85 * (y1 * y1)),
                6502500,
            );
        },
        CompressionLevelV1::High => {
            assert(y1 * y1 <= y2 * y2) by (nonlinear_arith)
                requires
                    0 <= y1 <= y2,
            ;
            vstd::arithmetic::div_mod::lemma_div_is_ordered(
                32 * (6502500 - 75 * (y2 * y2)),
                32 * (6502500 - 75 * (y1 * y1)),
                6502500,
            );
        },
        CompressionLevelV1::TrashCompactor => {},
    }
}

/// The square of an 8-bit luma stays within the fixed-point scale.
proof fn lemma_luma_square_bound(y: u8)
    ensures
        0 <= y as int * y as int <= 65025,
{
    assert(y as int * y as int <= 65025) by (nonlinear_arith)
        requires
            0 <= y as int <= 255,
    ;
    assert(y as int * y as int >= 0) by (nonlinear_arith);
}

/// Lowercases one ASCII byte.
pub open spec fn ascii_lower(b: u8) -> u8 {
    if 65 <= b <= 90 {
        (b + 32) as u8
    } else {
        b
    }
}

/// Lowercases a byte string, ASCII letters only.
pub open spec fn ascii_lower_bytes(s: Seq<u8>) -> Seq<u8> {
    Seq::new(s.len(), |i: int| ascii_lower(s[i]))
}

/// The bytes of the preset name `"none"`.
pub open spec fn name_none() -> Seq<u8> {
    seq![110u8, 111u8, 110u8, 101u8]
}

/// The bytes of the preset name `"low"`.
pub open spec fn name_low() -> Seq<u8> {
    seq![108u8, 111u8, 119u8]
}

/// The bytes of the preset name `"medium"`.
pub open spec fn name_medium() -> Seq<u8> {
    seq![109u8, 101u8, 100u8, 105u8, 117u8, 109u8]
}

/// The bytes of the preset name `"high"`.
pub open spec fn name_high() -> Seq<u8> {
    seq![104u8, 105u8, 103u8, 104u8]
}

/// The bytes of the preset name `"trash-compactor"`.
pub open spec fn name_trash_compactor() -> Seq<u8> {
    seq![
        116u8,
        114u8,
        97u8,
        115u8,
        104u8,
        45u8,
        99u8,
        111u8,
        109u8,
        112u8,
        97u8,
        99u8,
        116u8,
        111u8,
        114u8,
    ]
}

/// Whether a byte is an ASCII decimal digit.
pub open spec fn is_digit(b: u8) -> bool {
    48 <= b <= 57
}

/// Whether a byte string is one or more ASCII decimal digits.
pub open spec fn all_digits(s: Seq<u8>) -> bool {
    s.len() > 0 && forall|i: int| 0 <= i < s.len() ==> is_digit(#[trigger] s[i])
}

/// The number an ASCII digit string denotes, most significant digit first.
pub open spec fn digits_value(s: Seq<u8>) -> int
    decreases s.len(),
{
    if s.len() == 0 {
        0
    } else {
        digits_value(s.drop_last()) * 10 + (s.last() - 48)
    }
}

/// The level a (lowercased) byte string denotes: a preset name, or a number
/// that fits the machine's word.
pub open spec fn level_of_bytes(s: Seq<u8>) -> Option<CompressionLevelArg> {
    let l = ascii_lower_bytes(s);
    if l == name_none() {
        Some(CompressionLevelArg::Off)
    } else if l == name_low() {
        Some(CompressionLevelArg::Low)
    } else if l == name_medium() {
        Some(CompressionLevelArg::Medium)
    } else if l == name_high() {
        Some(CompressionLevelArg::High)
    } else if l == name_trash_compactor() {
        Some(CompressionLevelArg::TrashCompactor)
    } else if all_digits(l) && digits_value(l) <= usize::MAX {
        Some(CompressionLevelArg::Number(digits_value(l) as usize))
    } else {
        None
    }
}

/// The value of a digit string never falls when more digits follow.
pub proof fn lemma_digits_value_prefix(s: Seq<u8>, i: int)
    requires
        0 <= i <= s.len(),
        forall|k: int| 0 <= k < s.len() ==> is_digit(#[trigger] s[k]),
    ensures
        digits_value(s.take(i)) <= digits_value(s),
        digits_value(s) >= 0,
    decreases s.len() - i,
{
    if i < s.len() {
        assert(s.take(i + 1).drop_last() =~= s.take(i));
        lemma_digits_value_prefix(s, i + 1);
        if i + 1 == s.len() {
            assert(s.take(i + 1) =~= s);
        }
        lemma_digits_value_nonneg(s.take(i));
    } else {
        assert(s.take(i) =~= s);
        lemma_digits_value_nonneg(s);
    }
}

/// A digit string denotes a nonnegative number.
pub proof fn lemma_digits_value_nonneg(s: Seq<u8>)
    requires
        forall|k: int| 0 <= k < s.len() ==> is_digit(#[trigger] s[k]),
    ensures
        digits_value(s) >= 0,
    decreases s.len(),
{
    if s.len() > 0 {
        lemma_digits_value_nonneg(s.drop_last());
    }
}

impl CompressionLevelArg {
    /// Parses a level from its textual form, case-insensitively: one of the
    /// preset names, or a decimal pixel budget. Anything else — including a
    /// number too large for the machine — is rejected.
    pub fn try_from(value: String) -> (r: Result<CompressionLevelArg, &'static str>)
        ensures
            match level_of_bytes(encode_utf8(value@)) {
                Some(level) => r == Ok::<_, &'static str>(level),
                Option::None => r is Err,
            },
    {
        let bytes = value.as_str().as_bytes();
        let lowered = lower_vec(bytes);
        if eq_name(&lowered, 0) {
            Ok(CompressionLevelArg::Off)
        } else if eq_name(&lowered, 1) {
            Ok(CompressionLevelArg::Low)
        } else if eq_name(&lowered, 2) {
            Ok(CompressionLevelArg::Medium)
        } else if eq_name(&lowered, 3) {
            Ok(CompressionLevelArg::High)
        } else if eq_name(&lowered, 4) {
            Ok(CompressionLevelArg::TrashCompactor)
        } else {
            match parse_digits(&lowered) {
                Some(n) => Ok(CompressionLevelArg::Number(n)),
                Option::None => Err("Invalid compression level"),
            }
        }
    }
}

/// Lowercases the ASCII letters of a byte string.
fn lower_vec(bytes: &[u8]) -> (r: Vec<u8>)
    ensures
        r@ == ascii_lower_bytes(bytes@),
{
    let mut r: Vec<u8> = Vec::new();
    let mut i: usize = 0;
    while i < bytes.len()
        invariant
            i <= bytes@.len(),
            r@.len() == i as int,
            forall|k: int| 0 <= k < i as int ==> r@[k] == ascii_lower(bytes@[k]),
        decreases bytes@.len() - i,
    {
        let b = bytes[i];
        if 65 <= b && b <= 90 {
            r.push(b + 32);
        } else {
            r.push(b);
        }
        i = i + 1;
    }
    proof {
        assert(r@ =~= ascii_lower_bytes(bytes@));
    }
    r
}

/// The spec name selected by a small index, in the order the parser tries
/// them.
pub open spec fn name_at(which: int) -> Seq<u8> {
    if which == 0 {
        name_none()
    } else if which == 1 {
        name_low()
    } else if which == 2 {
        name_medium()
    } else if which == 3 {
        name_high()
    } else {
        name_trash_compactor()
    }
}

/// Builds one of the preset names as bytes.
fn name_vec(which: u8) -> (r: Vec<u8>)
    requires
        which <= 4,
    ensures
        r@ == name_at(which as int),
{
    let mut r: Vec<u8> = Vec::new();
    if which == 0 {
        r.push(110);
        r.push(111);
        r.push(110);
        r.push(101);
        proof {
            assert(r@ =~= name_none());
        }
    } else if which == 1 {
        r.push(108);
        r.push(111);
        r.push(119);
        proof {
            assert(r@ =~= name_low());
        }
    } else if which == 2 {
        r.push(109);
        r.push(101);
        r.push(100);
        r.push(105);
        r.push(117);
        r.push(109);
        proof {
            assert(r@ =~= name_medium());
        }
    } else if which == 3 {
        r.push(104);
        r.push(105);
        r.push(103);
        r.push(104);
        proof {
            assert(r@ =~= name_high());
        }
    } else {
        r.push(116);
        r.push(114);
        r.push(97);
        r.push(115);
        r.push(104);
        r.push(45);
        r.push(99);
        r.push(111);
        r.push(109);
        r.push(112);
        r.push(97);
        r.push(99);
        r.push(116);
        r.push(111);
        r.push(114);
        proof {
            assert(r@ =~= name_trash_compactor());
        }
    }
    r
}

/// Compares a byte string against one of the preset names.
fn eq_name(v: &Vec<u8>, which: u8) -> (r: bool)
    requires
        which <= 4,
    ensures
        r == (v@ == name_at(which as int)),
{
    let name = name_vec(which);
    if v.len() != name.len() {
        return false;
    }
    let mut i: usize = 0;
    while i < name.len()
        invariant
            i <= name@.len(),
            v@.len() == name@.len(),
            name@ == name_at(which as int),
            forall|k: int| 0 <= k < i as int ==> v@[k] == name@[k],
        decreases name@.len() - i,
    {
        if v[i] != name[i] {
            return false;
        }
        i = i + 1;
    }
    proof {
        assert(v@ =~= name_at(which as int));
    }
    true
}

/// Parses a nonempty ASCII digit string into a machine word, rejecting
/// anything with a non-digit and any value that does not fit.
fn parse_digits(v: &Vec<u8>) -> (r: Option<usize>)
    ensures
        match r {
            Some(n) => {
                &&& all_digits(v@)
                &&& digits_value(v@) == n as int
            },
            Option::None => !(all_digits(v@) && digits_value(v@) <= usize::MAX),
        },
{
    if v.len() == 0 {
        return None;
    }
    let mut acc: usize = 0;
    let mut i: usize = 0;
    while i < v.len()
        invariant
            i <= v@.len(),
            v@.len() > 0,
            forall|k: int| 0 <= k < i as int ==> is_digit(#[trigger] v@[k]),
            acc as int == digits_value(v@.take(i as int)),
        decreases v@.len() - i,
    {
        let b = v[i];
        if b < 48 || b > 57 {
            return None;
        }
        let d = (b - 48) as usize;
        let wide = acc as u128 * 10 + d as u128;
        proof {
            assert(v@.take(i + 1).drop_last() =~= v@.take(i as int));
        }
        if wide > usize::MAX as u128 {
            proof {
                lemma_digits_value_prefix_all(v@, i + 1);
            }
            return None;
        }
        acc = (wide) as usize;
        i = i + 1;
    }
    proof {
        assert(v@.take(v@.len() as int) =~= v@);
    }
    Some(acc)
}

/// If a digit prefix already exceeds the machine word, the whole string does,
/// provided every byte seen so far is a digit. Later non-digit bytes make the
/// string invalid anyway.
proof fn lemma_digits_value_prefix_all(s: Seq<u8>, i: int)
    requires
        0 <= i <= s.len(),
        forall|k: int| 0 <= k < i ==> is_digit(#[trigger] s[k]),
    ensures
        all_digits(s) ==> digits_value(s) >= digits_value(s.take(i)),
{
    if all_digits(s) {
        lemma_digits_value_prefix(s, i);
    }
}

/// Scales a pixels-per-second budget (times 1024) into a per-frame budget at
/// the stream's frame rate, given as microframes per second; saturates at the
/// machine word.
pub fn pixels_per_frame_budget(n: usize, fps_micros: u64) -> (r: usize)
    requires
        fps_micros > 0,
    ensures
        r as int == {
            let q = (n * 1024 * 1000000) / (fps_micros as int);
            if q > usize::MAX {
                usize::MAX as int
            } else {
                q
            }
        },
{
    let q = (n as u128 * 1024 * 1000000) / (fps_micros as u128);
    if q > usize::MAX as u128 {
        usize::MAX
    } else {
        q as usize
    }
}

} // verus!
