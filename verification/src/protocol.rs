//! The wire formats: serializing one pixel update into bytes. Three formats
//! exist: an ASCII `PX x y rrggbb` line, and two fixed-width binary layouts
//! (one big-endian with the canvas id packed into the lead byte, one
//! little-endian with a separate canvas byte). The byte layout of each is
//! pinned exactly by `cmd_bytes`.

use crate::pixel::Pixel;
use vstd::prelude::*;

verus! {

/// The wire format used to talk to the remote canvas.
#[derive(Debug, Clone, Copy, PartialEq, Eq, Structural)]
pub enum Protocol {
    Plaintext,
    BinFlutties,
    BinFlurry,
}

impl Default for Protocol {
    fn default() -> (r: Self)
        ensures
            r == Protocol::Plaintext,
    {
        Protocol::Plaintext
    }
}

/// The ASCII decimal digits of a nonnegative number, most significant first.
pub open spec fn dec_bytes(n: int) -> Seq<u8>
    decreases n,
{
    if n < 10 {
        seq![(48 + n) as u8]
    } else {
        dec_bytes(n / 10) + seq![(48 + n % 10) as u8]
    }
}

/// The ASCII digit of one hex nibble, lowercase.
pub open spec fn hex_digit(d: int) -> u8 {
    if d < 10 {
        (48 + d) as u8
    } else {
        (87 + d) as u8
    }
}

/// Two lowercase hex digits of a byte, high nibble first.
pub open spec fn hex_bytes(v: int) -> Seq<u8> {
    seq![hex_digit(v / 16), hex_digit(v % 16)]
}

/// The exact bytes of one encoded pixel update.
///
/// - `Plaintext`: `"PX "`, x in decimal, `" "`, y in decimal, `" "`, six
///   lowercase hex digits rrggbb, `"\n"`.
/// - `BinFlutties`: 8 bytes: `0xB0 | (canvas & 0x0F)`, x and y as big-endian
///   u16, then r, g, b.
/// - `BinFlurry`: 9 bytes: `0x80`, canvas, x and y as little-endian u16, then
///   r, g, b.
pub open spec fn cmd_bytes(p: Protocol, canvas: u8, r: u8, g: u8, b: u8, x: u16, y: u16) -> Seq<
    u8,
> {
    match p {
        Protocol::Plaintext => seq![80u8, 88u8, 32u8] + dec_bytes(x as int) + seq![32u8]
            + dec_bytes(y as int) + seq![32u8] + hex_bytes(r as int) + hex_bytes(g as int)
            + hex_bytes(b as int) + seq![10u8],
        Protocol::BinFlutties => seq![
            (176 + canvas as int % 16) as u8,
            (x as int / 256) as u8,
            (x as int % 256) as u8,
            (y as int / 256) as u8,
            (y as int % 256) as u8,
            r,
            g,
            b,
        ],
        Protocol::BinFlurry => seq![
            128u8,
            canvas,
            (x as int % 256) as u8,
            (x as int / 256) as u8,
            (y as int % 256) as u8,
            (y as int / 256) as u8,
            r,
            g,
            b,
        ],
    }
}

/// The concatenated encodings of a pixel list, in list order, each position
/// shifted by the stream's configured offset.
pub open spec fn cmds_bytes(p: Protocol, canvas: u8, ps: Seq<Pixel>, ox: int, oy: int) -> Seq<u8>
    decreases ps.len(),
{
    if ps.len() == 0 {
        Seq::empty()
    } else {
        let last = ps.last();
        cmds_bytes(p, canvas, ps.drop_last(), ox, oy) + cmd_bytes(
            p,
            canvas,
            last.color.r,
            last.color.g,
            last.color.b,
            (last.x + ox) as u16,
            (last.y + oy) as u16,
        )
    }
}

/// Appends the ASCII decimal digits of `n`.
fn push_dec(buf: &mut Vec<u8>, n: u16)
    ensures
        final(buf)@ == old(buf)@ + dec_bytes(n as int),
    decreases n,
{
    if n < 10 {
        buf.push(48 + n as u8);
        proof {
            assert(buf@ =~= old(buf)@ + dec_bytes(n as int));
        }
    } else {
        push_dec(buf, n / 10);
        buf.push(48 + (n % 10) as u8);
        proof {
            assert(buf@ =~= old(buf)@ + dec_bytes(n as int));
        }
    }
}

/// Appends the two lowercase hex digits of `v`.
fn push_hex(buf: &mut Vec<u8>, v: u8)
    ensures
        final(buf)@ == old(buf)@ + hex_bytes(v as int),
{
    let hi = v / 16;
    let lo = v % 16;
    buf.push(if hi < 10 {
        48 + hi
    } else {
        87 + hi
    });
    buf.push(if lo < 10 {
        48 + lo
    } else {
        87 + lo
    });
    proof {
        assert(buf@ =~= old(buf)@ + hex_bytes(v as int));
    }
}

impl Protocol {
    /// Appends the encoding of one pixel update to `buf`, byte-exactly as
    /// `cmd_bytes` lays it out.
    pub fn encode(&self, buf: &mut Vec<u8>, canvas: u8, r: u8, g: u8, b: u8, x: u16, y: u16)
        ensures
            final(buf)@ == old(buf)@ + cmd_bytes(*self, canvas, r, g, b, x, y),
    {
        match self {
            Protocol::Plaintext => {
                buf.push(80);
                buf.push(88);
                buf.push(32);
                push_dec(buf, x);
                buf.push(32);
                push_dec(buf, y);
                buf.push(32);
                push_hex(buf, r);
                push_hex(buf, g);
                push_hex(buf, b);
                buf.push(10);
                proof {
                    assert(buf@ =~= old(buf)@ + cmd_bytes(*self, canvas, r, g, b, x, y));
                }
            },
            Protocol::BinFlutties => {
                buf.push(176 + canvas % 16);
                buf.push((x / 256) as u8);
                buf.push((x % 256) as u8);
                buf.push((y / 256) as u8);
                buf.push((y % 256) as u8);
                buf.push(r);
                buf.push(g);
                buf.push(b);
                proof {
                    assert(buf@ =~= old(buf)@ + cmd_bytes(*self, canvas, r, g, b, x, y));
                }
            },
            Protocol::BinFlurry => {
                buf.push(128);
                buf.push(canvas);
                buf.push((x % 256) as u8);
                buf.push((x / 256) as u8);
                buf.push((y % 256) as u8);
                buf.push((y / 256) as u8);
                buf.push(r);
                buf.push(g);
                buf.push(b);
                proof {
                    assert(buf@ =~= old(buf)@ + cmd_bytes(*self, canvas, r, g, b, x, y));
                }
            },
        }
    }
}

/// Encodes a whole pixel list into one byte buffer, each pixel shifted by the
/// stream offset, commands in list order.
pub fn pixels_to_cmds(
    protocol: Protocol,
    canvas: u8,
    pixels: &[Pixel],
    offset_x: usize,
    offset_y: usize,
) -> (r: Vec<u8>)
    requires
        forall|i: int|
            0 <= i < pixels@.len() ==> (#[trigger] pixels@[i]).x + offset_x <= u16::MAX
                && pixels@[i].y + offset_y <= u16::MAX,
    ensures
        r@ == cmds_bytes(protocol, canvas, pixels@, offset_x as int, offset_y as int),
{
    let mut result: Vec<u8> = Vec::new();
    let n = pixels.len();
    let mut i: usize = 0;
    while i < n
        invariant
            i <= n,
            n == pixels@.len(),
            forall|k: int|
                0 <= k < pixels@.len() ==> (#[trigger] pixels@[k]).x + offset_x <= u16::MAX
                    && pixels@[k].y + offset_y <= u16::MAX,
            result@ == cmds_bytes(
                protocol,
                canvas,
                pixels@.take(i as int),
                offset_x as int,
                offset_y as int,
            ),
        decreases n - i,
    {
        let p = pixels[i];
        let x = (p.x + offset_x) as u16;
        let y = (p.y + offset_y) as u16;
        protocol.encode(&mut result, canvas, p.color.r, p.color.g, p.color.b, x, y);
        proof {
            let taken = pixels@.take(i + 1);
            assert(taken.drop_last() =~= pixels@.take(i as int));
            assert(taken.last() == pixels@[i as int]);
        }
        i = i + 1;
    }
    proof {
        assert(pixels@.take(pixels@.len() as int) =~= pixels@);
    }
    result
}

} // verus!

