//! The world-file parser: a line-oriented text format, one voxel
//! record per line, `<x> <y> <z> <rrggbb>` with `#`-comment lines.
//!
//! The specification side defines, over byte sequences alone, how a
//! file splits into lines, how a line splits into tokens, what a
//! record means, and which grid a whole file denotes. The executable
//! parser is proved to return exactly that grid, or the first error.

use crate::march::DenseBinaryCartesianSDF;
use crate::types::{Color, Dimension3, ParseError, ParseReason};
use crate::world::{DenseGrid, Space, Voxel};
use vstd::prelude::*;

verus! {

/// ASCII whitespace separating the tokens of a line.
pub open spec fn is_ws(b: u8) -> bool {
    b == 32 || (9 <= b && b <= 13)
}

/// ASCII decimal digit.
pub open spec fn is_digit(b: u8) -> bool {
    48 <= b && b <= 57
}

/// Value of an ASCII decimal digit.
pub open spec fn digit_val(b: u8) -> int {
    b - 48
}

/// ASCII hexadecimal digit, either case.
pub open spec fn is_hex_digit(b: u8) -> bool {
    is_digit(b) || (97 <= b && b <= 102) || (65 <= b && b <= 70)
}

/// Value of an ASCII hexadecimal digit.
pub open spec fn hex_val(b: u8) -> int {
    if is_digit(b) {
        b - 48
    } else if 97 <= b && b <= 102 {
        b - 87
    } else {
        b - 55
    }
}

/// A non-empty, all-digit token: a well-formed decimal coordinate.
pub open spec fn is_dec_token(t: Seq<u8>) -> bool {
    t.len() > 0 && forall|i: int| 0 <= i < t.len() ==> is_digit(#[trigger] t[i])
}

/// The number a digit token denotes, most significant digit first.
pub open spec fn dec_val(t: Seq<u8>) -> int
    decreases t.len(),
{
    if t.len() == 0 {
        0
    } else {
        dec_val(t.drop_last()) * 10 + digit_val(t.last())
    }
}

/// Exactly six hexadecimal digits: a well-formed color token.
pub open spec fn is_hex_token(t: Seq<u8>) -> bool {
    t.len() == 6 && forall|i: int| 0 <= i < t.len() ==> is_hex_digit(#[trigger] t[i])
}

/// The `k`-th two-digit pair of a hex token, as a byte.
pub open spec fn hex_pair(t: Seq<u8>, k: int) -> u8 {
    (hex_val(t[2 * k]) * 16 + hex_val(t[2 * k + 1])) as u8
}

/// The RGB triple a six-digit hex token denotes.
pub open spec fn color_of_token(t: Seq<u8>) -> Color {
    (hex_pair(t, 0), hex_pair(t, 1), hex_pair(t, 2))
}

/// How a file splits into lines: separators are `\n` bytes, and a
/// trailing `\n` does not open a final empty line.
pub open spec fn spec_lines_rec(s: Seq<u8>, cur: Seq<u8>, acc: Seq<Seq<u8>>) -> Seq<Seq<u8>>
    decreases s.len(),
{
    if s.len() == 0 {
        if cur.len() > 0 {
            acc.push(cur)
        } else {
            acc
        }
    } else if s[0] == 10u8 {
        spec_lines_rec(s.drop_first(), Seq::empty(), acc.push(cur))
    } else {
        spec_lines_rec(s.drop_first(), cur.push(s[0]), acc)
    }
}

/// The lines of a file.
pub open spec fn spec_lines(s: Seq<u8>) -> Seq<Seq<u8>> {
    spec_lines_rec(s, Seq::empty(), Seq::empty())
}

/// How a line splits into whitespace-separated tokens.
pub open spec fn spec_tokens_rec(s: Seq<u8>, cur: Seq<u8>, acc: Seq<Seq<u8>>) -> Seq<Seq<u8>>
    decreases s.len(),
{
    if s.len() == 0 {
        if cur.len() > 0 {
            acc.push(cur)
        } else {
            acc
        }
    } else if is_ws(s[0]) {
        if cur.len() > 0 {
            spec_tokens_rec(s.drop_first(), Seq::empty(), acc.push(cur))
        } else {
            spec_tokens_rec(s.drop_first(), Seq::empty(), acc)
        }
    } else {
        spec_tokens_rec(s.drop_first(), cur.push(s[0]), acc)
    }
}

/// The tokens of a line.
pub open spec fn spec_tokens(s: Seq<u8>) -> Seq<Seq<u8>> {
    spec_tokens_rec(s, Seq::empty(), Seq::empty())
}

/// What one line means against a grid shape. A line starting with `#`
/// is a comment. Otherwise its tokens are read left to right: three
/// in-range decimal coordinates, then a six-digit hex color; a missing
/// token, or a token beyond the fourth, is a token-count error.
pub open spec fn line_record(line: Seq<u8>, shape: Dimension3) -> Result<
    Option<((int, int, int), Voxel)>,
    ParseReason,
> {
    if line.len() > 0 && line[0] == 35u8 {
        Ok(None)
    } else {
        let toks = spec_tokens(line);
        if toks.len() < 1 {
            Err(ParseReason::WrongTokenCount)
        } else if !is_dec_token(toks[0]) {
            Err(ParseReason::NonNumericCoordinate)
        } else if dec_val(toks[0]) >= shape.x {
            Err(ParseReason::CoordinateOutOfRange)
        } else if toks.len() < 2 {
            Err(ParseReason::WrongTokenCount)
        } else if !is_dec_token(toks[1]) {
            Err(ParseReason::NonNumericCoordinate)
        } else if dec_val(toks[1]) >= shape.y {
            Err(ParseReason::CoordinateOutOfRange)
        } else if toks.len() < 3 {
            Err(ParseReason::WrongTokenCount)
        } else if !is_dec_token(toks[2]) {
            Err(ParseReason::NonNumericCoordinate)
        } else if dec_val(toks[2]) >= shape.z {
            Err(ParseReason::CoordinateOutOfRange)
        } else if toks.len() < 4 {
            Err(ParseReason::WrongTokenCount)
        } else if !is_hex_token(toks[3]) {
            Err(ParseReason::NonHexColor)
        } else if toks.len() > 4 {
            Err(ParseReason::WrongTokenCount)
        } else {
            Ok(
                Some(
                    (
                        (dec_val(toks[0]), dec_val(toks[1]), dec_val(toks[2])),
                        Voxel::from_color_spec(color_of_token(toks[3])),
                    ),
                ),
            )
        }
    }
}

/// The grid a sequence of lines denotes: cells start `Empty`, each
/// record overwrites one cell, and the first bad line aborts the whole
/// load with its 1-based number and reason.
pub open spec fn world_of(lines: Seq<Seq<u8>>, shape: Dimension3) -> Result<Seq<Voxel>, ParseError>
    decreases lines.len(),
{
    if lines.len() == 0 {
        Ok(Seq::new(shape.volume() as nat, |i: int| Voxel::Empty))
    } else {
        match world_of(lines.drop_last(), shape) {
            Err(e) => Err(e),
            Ok(g) => match line_record(lines.last(), shape) {
                Err(reason) => Err(
                    ParseError { line: lines.len() as usize, reason },
                ),
                Ok(None) => Ok(g),
                Ok(Some(rec)) => Ok(
                    g.update(shape.flat_index(rec.0.0, rec.0.1, rec.0.2), rec.1),
                ),
            },
        }
    }
}

/// The grid a whole file denotes, or its first error.
pub open spec fn parse_world(src: Seq<u8>, shape: Dimension3) -> Result<Seq<Voxel>, ParseError> {
    world_of(spec_lines(src), shape)
}

/// A digit token denotes a non-negative number.
proof fn lemma_dec_val_nonneg(t: Seq<u8>)
    requires
        forall|i: int| 0 <= i < t.len() ==> is_digit(#[trigger] t[i]),
    ensures
        dec_val(t) >= 0,
    decreases t.len(),
{
    if t.len() > 0 {
        assert(forall|i: int|
            0 <= i < t.drop_last().len() ==> is_digit(#[trigger] t.drop_last()[i]));
        lemma_dec_val_nonneg(t.drop_last());
    }
}

/// Reading one more digit multiplies the prefix value by ten and adds
/// the digit.
proof fn lemma_dec_val_step(t: Seq<u8>, i: int)
    requires
        0 <= i < t.len(),
    ensures
        dec_val(t.take(i + 1)) == dec_val(t.take(i)) * 10 + digit_val(t[i]),
{
    assert(t.take(i + 1).drop_last() =~= t.take(i));
    assert(t.take(i + 1).last() == t[i]);
}

/// The value of a digit token never falls below the value of any of
/// its prefixes.
proof fn lemma_dec_val_prefix_le(t: Seq<u8>, i: int)
    requires
        0 <= i <= t.len(),
        forall|j: int| 0 <= j < t.len() ==> is_digit(#[trigger] t[j]),
    ensures
        dec_val(t.take(i)) <= dec_val(t),
    decreases t.len() - i,
{
    if i == t.len() {
        assert(t.take(i) =~= t);
    } else {
        lemma_dec_val_step(t, i);
        assert(forall|j: int| 0 <= j < t.take(i).len() ==> is_digit(#[trigger] t.take(i)[j]));
        lemma_dec_val_nonneg(t.take(i));
        lemma_dec_val_prefix_le(t, i + 1);
    }
}

/// Split a file into its lines, exactly as [`spec_lines`] describes.
fn split_lines(src: &[u8]) -> (r: Vec<Vec<u8>>)
    ensures
        r@.map_values(|l: Vec<u8>| l@) == spec_lines(src@),
{
    let n = src.len();
    let mut acc: Vec<Vec<u8>> = Vec::new();
    let mut cur: Vec<u8> = Vec::new();
    let mut i: usize = 0;
    proof {
        assert(src@.skip(0) =~= src@);
        assert(acc@.map_values(|l: Vec<u8>| l@) =~= Seq::<Seq<u8>>::empty());
    }
    while i < n
        invariant
            i <= n,
            n == src@.len(),
            spec_lines(src@) == spec_lines_rec(
                src@.skip(i as int),
                cur@,
                acc@.map_values(|l: Vec<u8>| l@),
            ),
        decreases n - i,
    {
        let ghost prev_cur = cur@;
        let ghost prev_acc = acc@.map_values(|l: Vec<u8>| l@);
        let b = src[i];
        if b == 10 {
            acc.push(cur);
            cur = Vec::new();
            proof {
                assert(acc@.map_values(|l: Vec<u8>| l@) =~= prev_acc.push(prev_cur));
            }
        } else {
            cur.push(b);
        }
        i = i + 1;
        proof {
            assert(src@.skip(i - 1).drop_first() =~= src@.skip(i as int));
        }
    }
    proof {
        assert(src@.skip(n as int).len() == 0);
    }
    if cur.len() > 0 {
        let ghost prev_acc = acc@.map_values(|l: Vec<u8>| l@);
        let ghost last = cur@;
        acc.push(cur);
        proof {
            assert(acc@.map_values(|l: Vec<u8>| l@) =~= prev_acc.push(last));
        }
    }
    acc
}

/// Split a line into its whitespace-separated tokens, exactly as
/// [`spec_tokens`] describes.
fn tokenize(line: &Vec<u8>) -> (r: Vec<Vec<u8>>)
    ensures
        r@.map_values(|t: Vec<u8>| t@) == spec_tokens(line@),
{
    let n = line.len();
    let mut acc: Vec<Vec<u8>> = Vec::new();
    let mut cur: Vec<u8> = Vec::new();
    let mut i: usize = 0;
    proof {
        assert(line@.skip(0) =~= line@);
        assert(acc@.map_values(|t: Vec<u8>| t@) =~= Seq::<Seq<u8>>::empty());
    }
    while i < n
        invariant
            i <= n,
            n == line@.len(),
            spec_tokens(line@) == spec_tokens_rec(
                line@.skip(i as int),
                cur@,
                acc@.map_values(|t: Vec<u8>| t@),
            ),
        decreases n - i,
    {
        let ghost prev_cur = cur@;
        let ghost prev_acc = acc@.map_values(|t: Vec<u8>| t@);
        let b = line[i];
        if b == 32 || (9 <= b && b <= 13) {
            if cur.len() > 0 {
                acc.push(cur);
                cur = Vec::new();
                proof {
                    assert(acc@.map_values(|t: Vec<u8>| t@) =~= prev_acc.push(prev_cur));
                }
            } else {
                proof {
                    assert(cur@ =~= Seq::<u8>::empty());
                }
            }
        } else {
            cur.push(b);
        }
        i = i + 1;
        proof {
            assert(line@.skip(i - 1).drop_first() =~= line@.skip(i as int));
        }
    }
    proof {
        assert(line@.skip(n as int).len() == 0);
    }
    if cur.len() > 0 {
        let ghost prev_acc = acc@.map_values(|t: Vec<u8>| t@);
        let ghost last = cur@;
        acc.push(cur);
        proof {
            assert(acc@.map_values(|t: Vec<u8>| t@) =~= prev_acc.push(last));
        }
    }
    acc
}

/// Parse one coordinate token against an exclusive bound (the shape
/// dimension it indexes).
fn parse_coord(tok: &Vec<u8>, limit: usize) -> (r: Result<usize, ParseReason>)
    ensures
        match r {
            Ok(v) => is_dec_token(tok@) && dec_val(tok@) < limit && v == dec_val(tok@),
            Err(reason) => (reason == ParseReason::NonNumericCoordinate && !is_dec_token(tok@)) || (
            reason == ParseReason::CoordinateOutOfRange && is_dec_token(tok@) && dec_val(tok@)
                >= limit),
        },
{
    let n = tok.len();
    if n == 0 {
        return Err(ParseReason::NonNumericCoordinate);
    }
    let mut i: usize = 0;
    while i < n
        invariant
            i <= n,
            n == tok@.len(),
            forall|j: int| 0 <= j < i ==> is_digit(#[trigger] tok@[j]),
        decreases n - i,
    {
        let b = tok[i];
        if b < 48 || b > 57 {
            return Err(ParseReason::NonNumericCoordinate);
        }
        i = i + 1;
    }
    proof {
        lemma_dec_val_nonneg(tok@);
    }
    if limit == 0 {
        proof {
            assert(tok@.take(0) =~= Seq::<u8>::empty());
            lemma_dec_val_prefix_le(tok@, 0);
        }
        return Err(ParseReason::CoordinateOutOfRange);
    }
    let mut acc: usize = 0;
    let mut i2: usize = 0;
    proof {
        assert(tok@.take(0) =~= Seq::<u8>::empty());
    }
    while i2 < n
        invariant
            i2 <= n,
            n == tok@.len(),
            0 < limit,
            forall|j: int| 0 <= j < n ==> is_digit(#[trigger] tok@[j]),
            acc == dec_val(tok@.take(i2 as int)),
            acc < limit,
        decreases n - i2,
    {
        let b = tok[i2];
        let d: u8 = b - 48;
        let wide: u128 = (acc as u128) * 10 + (d as u128);
        proof {
            lemma_dec_val_step(tok@, i2 as int);
        }
        if wide >= (limit as u128) {
            proof {
                lemma_dec_val_prefix_le(tok@, i2 + 1);
            }
            return Err(ParseReason::CoordinateOutOfRange);
        }
        acc = wide as usize;
        i2 = i2 + 1;
    }
    proof {
        assert(tok@.take(n as int) =~= tok@);
    }
    Ok(acc)
}

/// The value of one hexadecimal digit, if the byte is one.
fn hex_digit_val(b: u8) -> (r: Option<u8>)
    ensures
        match r {
            Some(v) => is_hex_digit(b) && v == hex_val(b),
            None => !is_hex_digit(b),
        },
{
    if 48 <= b && b <= 57 {
        Some(b - 48)
    } else if 97 <= b && b <= 102 {
        Some(b - 87)
    } else if 65 <= b && b <= 70 {
        Some(b - 55)
    } else {
        None
    }
}

/// Parse a color token: exactly six hexadecimal digits split into
/// three bytes.
fn parse_hex_color(tok: &Vec<u8>) -> (r: Result<Color, ParseReason>)
    ensures
        match r {
            Ok(c) => is_hex_token(tok@) && c == color_of_token(tok@),
            Err(reason) => reason == ParseReason::NonHexColor && !is_hex_token(tok@),
        },
{
    if tok.len() != 6 {
        return Err(ParseReason::NonHexColor);
    }
    let mut vals: Vec<u8> = Vec::new();
    let mut i: usize = 0;
    while i < 6
        invariant
            i <= 6,
            tok@.len() == 6,
            vals@.len() == i,
            forall|j: int| 0 <= j < i ==> is_hex_digit(#[trigger] tok@[j]),
            forall|j: int| 0 <= j < i ==> vals@[j] == hex_val(#[trigger] tok@[j]),
        decreases 6 - i,
    {
        match hex_digit_val(tok[i]) {
            Some(v) => vals.push(v),
            None => {
                return Err(ParseReason::NonHexColor);
            },
        }
        i = i + 1;
    }
    proof {
        assert forall|j: int| 0 <= j < 6 implies vals@[j] <= 15 by {
            assert(vals@[j] == hex_val(tok@[j]));
            assert(is_hex_digit(tok@[j]));
        }
        assert(vals@[0] <= 15 && vals@[1] <= 15 && vals@[2] <= 15 && vals@[3] <= 15 && vals@[4]
            <= 15 && vals@[5] <= 15);
    }
    let red: u8 = vals[0] * 16 + vals[1];
    let green: u8 = vals[2] * 16 + vals[3];
    let blue: u8 = vals[4] * 16 + vals[5];
    Ok((red, green, blue))
}

/// Parse one line of the file, exactly as [`line_record`] describes.
fn parse_line(line: &Vec<u8>, shape: Dimension3) -> (r: Result<
    Option<((usize, usize, usize), Voxel)>,
    ParseReason,
>)
    ensures
        match r {
            Ok(rec_opt) => match rec_opt {
                Some(rec) => (line_record(line@, shape) matches Ok(srec_opt) && srec_opt matches Some(
                    srec,
                ) && srec.0.0 == rec.0.0 as int && srec.0.1 == rec.0.1 as int && srec.0.2
                    == rec.0.2 as int && srec.1 == rec.1),
                None => (line_record(line@, shape) matches Ok(srec_opt) && srec_opt is None),
            },
            Err(reason) => (line_record(line@, shape) matches Err(sreason) && sreason == reason),
        },
{
    if line.len() > 0 {
        let b0 = line[0];
        if b0 == 35 {
            return Ok(None);
        }
    }
    let toks = tokenize(line);
    let ghost stoks = spec_tokens(line@);
    if toks.len() < 1 {
        return Err(ParseReason::WrongTokenCount);
    }
    let x = match parse_coord(&toks[0], shape.x) {
        Ok(v) => v,
        Err(reason) => {
            return Err(reason);
        },
    };
    if toks.len() < 2 {
        return Err(ParseReason::WrongTokenCount);
    }
    let y = match parse_coord(&toks[1], shape.y) {
        Ok(v) => v,
        Err(reason) => {
            return Err(reason);
        },
    };
    if toks.len() < 3 {
        return Err(ParseReason::WrongTokenCount);
    }
    let z = match parse_coord(&toks[2], shape.z) {
        Ok(v) => v,
        Err(reason) => {
            return Err(reason);
        },
    };
    if toks.len() < 4 {
        return Err(ParseReason::WrongTokenCount);
    }
    let color = match parse_hex_color(&toks[3]) {
        Ok(c) => c,
        Err(reason) => {
            return Err(reason);
        },
    };
    if toks.len() > 4 {
        return Err(ParseReason::WrongTokenCount);
    }
    Ok(Some(((x, y, z), Voxel::from_color(color))))
}

/// Once a prefix of the lines is accepted and the next line is bad,
/// every extension of that prefix denotes the same error.
proof fn lemma_world_of_err(
    lines: Seq<Seq<u8>>,
    shape: Dimension3,
    i: int,
    j: int,
    reason: ParseReason,
)
    requires
        0 <= i < lines.len(),
        i < j <= lines.len(),
        world_of(lines.take(i), shape) is Ok,
        line_record(lines[i], shape) == Err::<Option<((int, int, int), Voxel)>, ParseReason>(
            reason,
        ),
    ensures
        world_of(lines.take(j), shape) == Err::<Seq<Voxel>, ParseError>(
            ParseError { line: (i + 1) as usize, reason },
        ),
    decreases j,
{
    if j == i + 1 {
        assert(lines.take(j).drop_last() =~= lines.take(i));
        assert(lines.take(j).last() == lines[i]);
    } else {
        lemma_world_of_err(lines, shape, i, j - 1, reason);
        assert(lines.take(j).drop_last() =~= lines.take(j - 1));
    }
}

impl Space {
    /// Load a world of the given shape from the bytes of a
    /// line-oriented world file. Loading is all-or-nothing: either the
    /// returned grid is exactly the one the file denotes (with its
    /// derived occupancy field), or the first bad line is reported and
    /// no world is returned.
    pub fn from_gox(shape: Dimension3, src: &[u8]) -> (r: Result<Space, ParseError>)
        requires
            shape.volume_fits(),
        ensures
            match r {
                Ok(s) => (s.wf() && s.voxels.spec_shape() == shape && parse_world(src@, shape)
                    == Ok::<Seq<Voxel>, ParseError>(s.voxels@)),
                Err(e) => parse_world(src@, shape) == Err::<Seq<Voxel>, ParseError>(e),
            },
    {
        let lines = split_lines(src);
        let ghost lseq = spec_lines(src@);
        let mut voxels = DenseGrid::fill(shape, Voxel::Empty);
        proof {
            assert(lseq.take(0) =~= Seq::<Seq<u8>>::empty());
            assert(voxels@ =~= Seq::new(shape.volume() as nat, |i: int| Voxel::Empty));
        }
        let m = lines.len();
        let mut li: usize = 0;
        while li < m
            invariant
                li <= m,
                m == lines@.len(),
                lines@.map_values(|l: Vec<u8>| l@) == lseq,
                lseq == spec_lines(src@),
                voxels.wf(),
                voxels.spec_shape() == shape,
                world_of(lseq.take(li as int), shape) == Ok::<Seq<Voxel>, ParseError>(voxels@),
            decreases m - li,
        {
            let ghost prev = voxels@;
            let line = &lines[li];
            proof {
                assert(line@ == lseq[li as int]);
            }
            match parse_line(line, shape) {
                Err(reason) => {
                    proof {
                        lemma_world_of_err(lseq, shape, li as int, lseq.len() as int, reason);
                        assert(lseq.take(lseq.len() as int) =~= lseq);
                    }
                    return Err(ParseError { line: li + 1, reason });
                },
                Ok(None) => {
                    proof {
                        assert(lseq.take(li as int + 1).drop_last() =~= lseq.take(li as int));
                        assert(lseq.take(li as int + 1).last() == lseq[li as int]);
                    }
                },
                Ok(Some(((x, y, z), v))) => {
                    voxels.put(x, y, z, v);
                    proof {
                        assert(lseq.take(li as int + 1).drop_last() =~= lseq.take(li as int));
                        assert(lseq.take(li as int + 1).last() == lseq[li as int]);
                    }
                },
            }
            li = li + 1;
        }
        proof {
            assert(lseq.take(m as int) =~= lseq);
        }
        let mut sdf = DenseBinaryCartesianSDF::zeros(shape);
        sdf.update(&voxels);
        Ok(Space { voxels, sdf })
    }
}

} // verus!
