//! The bundled canvas file: a little-endian list of strokes drawn here, then
//! lists of strokes drawn by other peers. Its `y` coordinates point down, so
//! they are negated on the way in.

use vstd::prelude::*;

use crate::error::DecodeError;
use crate::file_reader::{CanvasReader, exact_read_step, nul_string_len, read_f32_bits, read_f64_bits, read_string,
    read_u32, read_u8};
use crate::stroke::{
    Rgb8, Stroke, StrokeData, StrokeDataModel, StrokeMetadata, StrokeMetadataModel, StrokeModel,
    StrokeType, Vec2Bits, clone_owner, owner_view,
};
use crate::text::utf8_lossy;
use crate::wire::{lemma_skip_skip, le_u32, le_u64};

verus! {

/// The values of a list of strokes.
pub open spec fn strokes_view(v: Seq<Stroke>) -> Seq<StrokeModel> {
    v.map_values(|s: Stroke| s@)
}

/// The bits of `-x` for the `f32` `x` with bits `b`: the sign bit flipped.
pub open spec fn neg_bits(b: u32) -> u32 {
    b ^ 0x8000_0000u32
}

/// The points of a canvas stroke, `n` of them from the front of `b`, with
/// `y` negated.
pub open spec fn canvas_points(b: Seq<u8>, n: nat) -> Seq<Vec2Bits> {
    Seq::new(n, |i: int| Vec2Bits { x: le_u32(b.skip(8 * i)), y: neg_bits(le_u32(b.skip(8 * i + 4))) })
}

/// Decodes what follows the kind of a canvas stroke: the points, then an
/// optional list of pressures; also gives how many bytes that takes.
pub open spec fn decode_canvas_tail(b: Seq<u8>) -> Result<
    (Seq<Vec2Bits>, Option<Seq<u32>>, int),
    DecodeError,
> {
    if b.len() < 4 {
        Err(DecodeError::UnexpectedEof)
    } else {
        let n = le_u32(b) as int;
        let r = b.skip(4);
        if r.len() < 8 * n {
            Err(DecodeError::UnexpectedEof)
        } else {
            let pts = canvas_points(r, n as nat);
            let r2 = r.skip(8 * n);
            if r2.len() < 1 {
                Err(DecodeError::UnexpectedEof)
            } else if r2[0] == 1 {
                let r3 = r2.skip(1);
                if r3.len() < 4 {
                    Err(DecodeError::UnexpectedEof)
                } else {
                    let m = le_u32(r3) as int;
                    let r4 = r3.skip(4);
                    if r4.len() < 4 * m {
                        Err(DecodeError::UnexpectedEof)
                    } else {
                        Ok(
                            (
                                pts,
                                Some(Seq::new(m as nat, |i: int| le_u32(r4.skip(4 * i)))),
                                4 + 8 * n + 1 + 4 + 4 * m,
                            ),
                        )
                    }
                }
            } else {
                Ok((pts, None, 4 + 8 * n + 1))
            }
        }
    }
}

/// Decodes one canvas stroke at the front of `b`, giving it the owner
/// `owner`; also gives how many bytes it takes. A kind byte other than 1
/// makes an eraser.
pub open spec fn decode_canvas_stroke(b: Seq<u8>, owner: Option<Seq<char>>) -> Result<
    (StrokeModel, int),
    DecodeError,
> {
    if b.len() < 25 {
        Err(DecodeError::UnexpectedEof)
    } else {
        let paint = b[24] == 1;
        let k: int = if paint { 28 } else { 25 };
        if b.len() < k {
            Err(DecodeError::UnexpectedEof)
        } else {
            let t = if paint {
                StrokeType::Paint(Rgb8 { r: b[25], g: b[26], b: b[27] })
            } else {
                StrokeType::Eraser
            };
            match decode_canvas_tail(b.skip(k)) {
                Ok((pts, ps, j)) => Ok(
                    (
                        StrokeModel {
                            metadata: StrokeMetadataModel {
                                timestamp: le_u64(b.skip(4)),
                                id_random: le_u32(b),
                                owner: owner,
                                origin: Vec2Bits {
                                    x: le_u32(b.skip(12)),
                                    y: neg_bits(le_u32(b.skip(16))),
                                },
                            },
                            data: StrokeDataModel {
                                stroke_type: t,
                                width: le_u32(b.skip(20)),
                                points: pts,
                                pressures: ps,
                            },
                        },
                        k + j,
                    ),
                ),
                Err(e) => Err(e),
            }
        }
    }
}

fn read_tail(file: &mut CanvasReader) -> (r: Result<(Vec<Vec2Bits>, Option<Vec<u32>>), DecodeError>)
    ensures
        match decode_canvas_tail(old(file)@) {
            Ok((pts, ps, j)) => r matches Ok((v, q)) && v@ == pts && (match q {
                Some(q) => Some(q@),
                None => None,
            }) == ps && final(file)@ == old(file)@.skip(j),
            Err(e) => r == Err::<(Vec<Vec2Bits>, Option<Vec<u32>>), DecodeError>(e),
        },
{
    let ghost b = file@;
    let n = match read_u32(file) {
        Ok(v) => v,
        Err(e) => return Err(e),
    };
    let ghost r = b.skip(4);
    if (n as u64) * 8 > file.remaining() as u64 {
        return Err(DecodeError::UnexpectedEof);
    }
    let mut points: Vec<Vec2Bits> = Vec::new();
    let mut i: u32 = 0;
    while i < n
        invariant
            i <= n,
            r.len() >= 8 * n,
            file@ == r.skip(8 * i),
            points@ == canvas_points(r, i as nat),
        decreases n - i,
    {
        proof {
            lemma_skip_skip(r, 8 * i, 4);
            lemma_skip_skip(r, 8 * i + 4, 4);
        }
        let x = match read_f32_bits(file) {
            Ok(v) => v,
            Err(e) => return Err(e),
        };
        let y = match read_f32_bits(file) {
            Ok(v) => v,
            Err(e) => return Err(e),
        };
        points.push(Vec2Bits { x: x, y: y ^ 0x8000_0000u32 });
        i = i + 1;
        assert(points@ =~= canvas_points(r, i as nat));
    }
    let ghost r2 = r.skip(8 * n);
    let has_pressure = match read_u8(file) {
        Ok(v) => v,
        Err(e) => return Err(e),
    };
    if has_pressure == 1 {
        let ghost r3 = r2.skip(1);
        let m = match read_u32(file) {
            Ok(v) => v,
            Err(e) => return Err(e),
        };
        let ghost r4 = r3.skip(4);
        if (m as u64) * 4 > file.remaining() as u64 {
            return Err(DecodeError::UnexpectedEof);
        }
        let mut p: Vec<u32> = Vec::new();
        let mut k: u32 = 0;
        while k < m
            invariant
                k <= m,
                r4.len() >= 4 * m,
                file@ == r4.skip(4 * k),
                p@ == Seq::new(k as nat, |j: int| le_u32(r4.skip(4 * j))),
            decreases m - k,
        {
            proof {
                lemma_skip_skip(r4, 4 * k, 4);
            }
            let v = match read_f32_bits(file) {
                Ok(v) => v,
                Err(e) => return Err(e),
            };
            p.push(v);
            k = k + 1;
            assert(p@ =~= Seq::new(k as nat, |j: int| le_u32(r4.skip(4 * j))));
        }
        proof {
            lemma_skip_skip(b, 4, 8 * n);
            lemma_skip_skip(b, 4 + 8 * n, 1);
            lemma_skip_skip(b, 5 + 8 * n, 4);
            lemma_skip_skip(b, 9 + 8 * n, 4 * m);
        }
        Ok((points, Some(p)))
    } else {
        proof {
            lemma_skip_skip(b, 4, 8 * n);
            lemma_skip_skip(b, 4 + 8 * n, 1);
        }
        Ok((points, None))
    }
}

/// Reads one canvas stroke and gives it the owner `owner_id`.
pub fn read_stroke(owner_id: &Option<String>, file: &mut CanvasReader) -> (r: Result<Stroke, DecodeError>)
    ensures
        match decode_canvas_stroke(old(file)@, owner_view(*owner_id)) {
            Ok((m, k)) => r matches Ok(s) && s@ == m && final(file)@ == old(file)@.skip(k),
            Err(e) => r == Err::<Stroke, DecodeError>(e),
        },
{
    let ghost b = file@;
    let id_random = match read_u32(file) {
        Ok(v) => v,
        Err(e) => return Err(e),
    };
    let timestamp = match read_f64_bits(file) {
        Ok(v) => v,
        Err(e) => return Err(e),
    };
    proof {
        lemma_skip_skip(b, 4, 8);
    }
    let origin_x = match read_f32_bits(file) {
        Ok(v) => v,
        Err(e) => return Err(e),
    };
    proof {
        lemma_skip_skip(b, 12, 4);
    }
    let origin_y = match read_f32_bits(file) {
        Ok(v) => v,
        Err(e) => return Err(e),
    };
    proof {
        lemma_skip_skip(b, 16, 4);
    }
    let width = match read_f32_bits(file) {
        Ok(v) => v,
        Err(e) => return Err(e),
    };
    proof {
        lemma_skip_skip(b, 20, 4);
    }
    let stroke_type_num = match read_u8(file) {
        Ok(v) => v,
        Err(e) => return Err(e),
    };
    proof {
        lemma_skip_skip(b, 24, 1);
    }
    let mut stroke_type = StrokeType::Eraser;
    if stroke_type_num == 1 {
        let r = match read_u8(file) {
            Ok(v) => v,
            Err(e) => return Err(e),
        };
        proof {
            lemma_skip_skip(b, 25, 1);
        }
        let g = match read_u8(file) {
            Ok(v) => v,
            Err(e) => return Err(e),
        };
        proof {
            lemma_skip_skip(b, 26, 1);
        }
        let bl = match read_u8(file) {
            Ok(v) => v,
            Err(e) => return Err(e),
        };
        proof {
            lemma_skip_skip(b, 27, 1);
        }
        stroke_type = StrokeType::Paint(Rgb8 { r, g, b: bl });
    }
    let ghost k: int = if stroke_type_num == 1 { 28 } else { 25 };
    let (points, pressures) = match read_tail(file) {
        Ok(v) => v,
        Err(e) => return Err(e),
    };
    proof {
        let j = decode_canvas_tail(b.skip(k)).unwrap().2;
        lemma_skip_skip(b, k, j);
    }
    let s = Stroke {
        metadata: StrokeMetadata {
            timestamp: timestamp,
            id_random: id_random,
            owner: clone_owner(owner_id),
            origin: Vec2Bits { x: origin_x, y: origin_y ^ 0x8000_0000u32 },
        },
        data: StrokeData::new(points, pressures, width, stroke_type),
    };
    assert(s@ =~= decode_canvas_stroke(b, owner_view(*owner_id)).unwrap().0);
    Ok(s)
}

/// Decodes `n` canvas strokes one after the other, each with the owner
/// `owner`, keeping those that have points; also gives how many bytes they
/// take.
pub open spec fn decode_canvas_strokes(b: Seq<u8>, n: nat, owner: Option<Seq<char>>) -> Result<
    (Seq<StrokeModel>, int),
    DecodeError,
>
    decreases n,
{
    if n == 0 {
        Ok((Seq::empty(), 0))
    } else {
        match decode_canvas_strokes(b, (n - 1) as nat, owner) {
            Ok((s, k)) => match decode_canvas_stroke(b.skip(k), owner) {
                Ok((st, j)) => Ok(
                    (
                        if st.data.points.len() > 0 {
                            s.push(st)
                        } else {
                            s
                        },
                        k + j,
                    ),
                ),
                Err(e) => Err(e),
            },
            Err(e) => Err(e),
        }
    }
}

proof fn lemma_canvas_stroke_len(b: Seq<u8>, owner: Option<Seq<char>>)
    ensures
        decode_canvas_stroke(b, owner) matches Ok((_, j)) ==> 0 <= j <= b.len(),
{
}

proof fn lemma_canvas_strokes_len(b: Seq<u8>, n: nat, owner: Option<Seq<char>>)
    ensures
        decode_canvas_strokes(b, n, owner) matches Ok((_, k)) ==> 0 <= k <= b.len(),
    decreases n,
{
    if n > 0 {
        lemma_canvas_strokes_len(b, (n - 1) as nat, owner);
        if let Ok((_, k)) = decode_canvas_strokes(b, (n - 1) as nat, owner) {
            lemma_canvas_stroke_len(b.skip(k), owner);
        }
    }
}

/// Reads `n` canvas strokes, each with the owner `owner_id`, and keeps those
/// that have points.
pub fn read_strokes(owner_id: &Option<String>, file: &mut CanvasReader, n: u32) -> (r: Result<
    Vec<Stroke>,
    DecodeError,
>)
    ensures
        match decode_canvas_strokes(old(file)@, n as nat, owner_view(*owner_id)) {
            Ok((s, k)) => r matches Ok(v) && strokes_view(v@) == s && final(file)@ == old(
                file,
            )@.skip(k),
            Err(e) => r == Err::<Vec<Stroke>, DecodeError>(e),
        },
{
    let ghost b = file@;
    let ghost owner = owner_view(*owner_id);
    let mut out: Vec<Stroke> = Vec::new();
    let ghost mut k: int = 0;
    let mut i: u32 = 0;
    assert(strokes_view(out@) =~= Seq::<StrokeModel>::empty());
    while i < n
        invariant
            b == old(file)@,
            i <= n,
            owner == owner_view(*owner_id),
            decode_canvas_strokes(b, i as nat, owner) == Ok::<(Seq<StrokeModel>, int), DecodeError>(
                (strokes_view(out@), k),
            ),
            0 <= k <= b.len(),
            file@ == b.skip(k),
        decreases n - i,
    {
        let stroke = match read_stroke(owner_id, file) {
            Ok(s) => s,
            Err(e) => {
                proof {
                    crate::save_load::lemma_decode_strokes_err(b, i as nat, owner, n as nat);
                }
                return Err(e);
            },
        };
        let ghost j = decode_canvas_stroke(b.skip(k), owner).unwrap().1;
        proof {
            lemma_canvas_stroke_len(b.skip(k), owner);
            lemma_skip_skip(b, k, j);
        }
        let ghost prev = out@;
        if stroke.data.points.len() > 0 {
            out.push(stroke);
            assert(strokes_view(out@) =~= strokes_view(prev).push(out@.last()@));
        }
        proof {
            k = k + j;
        }
        i = i + 1;
    }
    Ok(out)
}

proof fn lemma_decode_strokes_err(b: Seq<u8>, i: nat, owner: Option<Seq<char>>, n: nat)
    requires
        i < n,
        decode_canvas_strokes(b, i, owner) is Ok,
        decode_canvas_strokes(b, i + 1, owner) is Err,
    ensures
        decode_canvas_strokes(b, n, owner) == decode_canvas_strokes(b, i + 1, owner),
    decreases n - i,
{
    if n > i + 1 {
        lemma_decode_strokes_err(b, i, owner, (n - 1) as nat);
    }
}

/// Decodes a group of strokes drawn by one peer: the peer's name (a string
/// as `read_string` reads it), a count, then that many canvas strokes with
/// the peer as owner; also gives how many bytes it takes.
pub open spec fn decode_canvas_group(b: Seq<u8>) -> Result<(Seq<StrokeModel>, int), DecodeError> {
    match nul_string_len(b) {
        None => Err(DecodeError::UnexpectedEof),
        Some(j) => {
            let owner = utf8_lossy(b.subrange(1, 1 + j));
            let r = b.skip(2 + j);
            if r.len() < 4 {
                Err(DecodeError::UnexpectedEof)
            } else {
                match decode_canvas_strokes(r.skip(4), le_u32(r) as nat, Some(owner)) {
                    Ok((s, k)) => Ok((s, 2 + j + 4 + k)),
                    Err(e) => Err(e),
                }
            }
        },
    }
}

/// Decodes `n` groups one after the other; also gives how many bytes they
/// take.
pub open spec fn decode_canvas_groups(b: Seq<u8>, n: nat) -> Result<(Seq<StrokeModel>, int), DecodeError>
    decreases n,
{
    if n == 0 {
        Ok((Seq::empty(), 0))
    } else {
        match decode_canvas_groups(b, (n - 1) as nat) {
            Ok((s, k)) => match decode_canvas_group(b.skip(k)) {
                Ok((g, j)) => Ok((s + g, k + j)),
                Err(e) => Err(e),
            },
            Err(e) => Err(e),
        }
    }
}

/// The strokes of `n` groups decoded one after the other from the front of
/// `b`, each group's strokes kept apart; also how many bytes they take.
pub open spec fn decode_group_list(b: Seq<u8>, n: nat) -> Result<(Seq<Seq<StrokeModel>>, int), DecodeError>
    decreases n,
{
    if n == 0 {
        Ok((Seq::empty(), 0))
    } else {
        match decode_group_list(b, (n - 1) as nat) {
            Ok((gs, k)) => match decode_canvas_group(b.skip(k)) {
                Ok((g, j)) => Ok((gs.push(g), k + j)),
                Err(e) => Err(e),
            },
            Err(e) => Err(e),
        }
    }
}

/// Reading the peers' groups gives the strokes of every group, one group
/// after the other in the order of the file: the strokes of all `n` groups
/// joined, none left out; reading fails exactly where decoding a group fails.
pub proof fn law_groups_join_every_group(b: Seq<u8>, n: nat)
    ensures
        match decode_group_list(b, n) {
            Ok((gs, k)) => gs.len() == n && decode_canvas_groups(b, n) == Ok::<
                (Seq<StrokeModel>, int),
                DecodeError,
            >((gs.flatten(), k)),
            Err(e) => decode_canvas_groups(b, n) == Err::<(Seq<StrokeModel>, int), DecodeError>(e),
        },
    decreases n,
{
    if n > 0 {
        law_groups_join_every_group(b, (n - 1) as nat);
        if let Ok((gs, k)) = decode_group_list(b, (n - 1) as nat) {
            if let Ok((g, j)) = decode_canvas_group(b.skip(k)) {
                let gs2 = gs.push(g);
                gs.lemma_flatten_and_flatten_alt_are_equivalent();
                gs2.lemma_flatten_and_flatten_alt_are_equivalent();
                assert(gs2.drop_last() =~= gs);
                assert(gs2.flatten_alt() == gs.flatten_alt() + g);
            }
        }
    } else {
        assert(Seq::<Seq<StrokeModel>>::empty().flatten() =~= Seq::<StrokeModel>::empty());
    }
}

/// Decodes a canvas file: a header of four `u32` of which the last counts
/// the strokes drawn here, those strokes, a count of groups, then the groups.
/// Strokes without points are left out.
pub open spec fn decode_canvas(b: Seq<u8>) -> Result<Seq<StrokeModel>, DecodeError> {
    if b.len() < 16 {
        Err(DecodeError::UnexpectedEof)
    } else {
        match decode_canvas_strokes(b.skip(16), le_u32(b.skip(12)) as nat, None) {
            Ok((s1, k)) => {
                let r = b.skip(16 + k);
                if r.len() < 4 {
                    Err(DecodeError::UnexpectedEof)
                } else {
                    match decode_canvas_groups(r.skip(4), le_u32(r) as nat) {
                        Ok((s2, _)) => Ok(s1 + s2),
                        Err(e) => Err(e),
                    }
                }
            },
            Err(e) => Err(e),
        }
    }
}

proof fn lemma_canvas_group_len(b: Seq<u8>)
    ensures
        decode_canvas_group(b) matches Ok((_, j)) ==> 0 <= j <= b.len(),
{
    if let Some(j) = nul_string_len(b) {
        let r = b.skip(2 + j);
        if r.len() >= 4 {
            lemma_canvas_strokes_len(r.skip(4), le_u32(r) as nat, Some(utf8_lossy(b.subrange(1, 1 + j))));
        }
    }
}

proof fn lemma_decode_groups_err(b: Seq<u8>, i: nat, n: nat)
    requires
        i < n,
        decode_canvas_groups(b, i) is Ok,
        decode_canvas_groups(b, i + 1) is Err,
    ensures
        decode_canvas_groups(b, n) == decode_canvas_groups(b, i + 1),
    decreases n - i,
{
    if n > i + 1 {
        lemma_decode_groups_err(b, i, (n - 1) as nat);
    }
}

fn read_group(file: &mut CanvasReader) -> (r: Result<Vec<Stroke>, DecodeError>)
    ensures
        match decode_canvas_group(old(file)@) {
            Ok((s, k)) => r matches Ok(v) && strokes_view(v@) == s && final(file)@ == old(
                file,
            )@.skip(k),
            Err(e) => r == Err::<Vec<Stroke>, DecodeError>(e),
        },
{
    let ghost b = file@;
    let id = match read_string(file) {
        Ok(s) => s,
        Err(e) => return Err(e),
    };
    let ghost j = nul_string_len(b).unwrap();
    let ghost r = b.skip(2 + j);
    let num_strokes = match read_u32(file) {
        Ok(v) => v,
        Err(e) => return Err(e),
    };
    let owner = Some(id);
    let strokes = match read_strokes(&owner, file, num_strokes) {
        Ok(v) => v,
        Err(e) => return Err(e),
    };
    proof {
        let k = decode_canvas_strokes(r.skip(4), num_strokes as nat, owner_view(owner)).unwrap().1;
        lemma_canvas_strokes_len(r.skip(4), num_strokes as nat, owner_view(owner));
        lemma_skip_skip(r, 4, k);
        lemma_skip_skip(b, 2 + j, 4 + k);
    }
    Ok(strokes)
}

/// Reads `n` groups and joins their strokes in order.
fn read_groups(file: &mut CanvasReader, n: u32) -> (r: Result<Vec<Stroke>, DecodeError>)
    ensures
        match decode_canvas_groups(old(file)@, n as nat) {
            Ok((s, k)) => r matches Ok(v) && strokes_view(v@) == s && final(file)@ == old(
                file,
            )@.skip(k),
            Err(e) => r == Err::<Vec<Stroke>, DecodeError>(e),
        },
{
    let ghost b = file@;
    let mut out: Vec<Stroke> = Vec::new();
    let ghost mut k: int = 0;
    let mut i: u32 = 0;
    assert(strokes_view(out@) =~= Seq::<StrokeModel>::empty());
    while i < n
        invariant
            b == old(file)@,
            i <= n,
            decode_canvas_groups(b, i as nat) == Ok::<(Seq<StrokeModel>, int), DecodeError>(
                (strokes_view(out@), k),
            ),
            0 <= k <= b.len(),
            file@ == b.skip(k),
        decreases n - i,
    {
        let mut group = match read_group(file) {
            Ok(g) => g,
            Err(e) => {
                proof {
                    lemma_decode_groups_err(b, i as nat, n as nat);
                }
                return Err(e);
            },
        };
        let ghost j = decode_canvas_group(b.skip(k)).unwrap().1;
        proof {
            lemma_canvas_group_len(b.skip(k));
            lemma_skip_skip(b, k, j);
        }
        let ghost prev = out@;
        let ghost g = group@;
        out.append(&mut group);
        assert(strokes_view(out@) =~= strokes_view(prev) + strokes_view(g));
        proof {
            k = k + j;
        }
        i = i + 1;
    }
    Ok(out)
}

/// Reads a whole canvas file: the strokes drawn here, then those of each
/// peer, leaving out strokes without points.
pub fn read_canvas(bytes: Vec<u8>) -> (r: Result<Vec<Stroke>, DecodeError>)
    ensures
        match decode_canvas(bytes@) {
            Ok(s) => r matches Ok(v) && strokes_view(v@) == s,
            Err(e) => r == Err::<Vec<Stroke>, DecodeError>(e),
        },
{
    let ghost b = bytes@;
    let mut file = CanvasReader::new(bytes);
    let _len_header = match read_u32(&mut file) {
        Ok(v) => v,
        Err(e) => return Err(e),
    };
    match read_u32(&mut file) {
        Ok(_) => {},
        Err(e) => return Err(e),
    }
    let _version = match read_u32(&mut file) {
        Ok(v) => v,
        Err(e) => return Err(e),
    };
    proof {
        lemma_skip_skip(b, 4, 4);
        lemma_skip_skip(b, 8, 4);
    }
    let num_strokes = match read_u32(&mut file) {
        Ok(v) => v,
        Err(e) => return Err(e),
    };
    proof {
        lemma_skip_skip(b, 12, 4);
    }
    let mut strokes = match read_strokes(&None, &mut file, num_strokes) {
        Ok(v) => v,
        Err(e) => return Err(e),
    };
    let ghost k = decode_canvas_strokes(b.skip(16), num_strokes as nat, None).unwrap().1;
    proof {
        lemma_canvas_strokes_len(b.skip(16), num_strokes as nat, None);
        lemma_skip_skip(b, 16, k);
    }
    let num_remote_ids = match read_u32(&mut file) {
        Ok(v) => v,
        Err(e) => return Err(e),
    };
    let mut remote = match read_groups(&mut file, num_remote_ids) {
        Ok(v) => v,
        Err(e) => return Err(e),
    };
    let ghost s1 = strokes@;
    let ghost s2 = remote@;
    strokes.append(&mut remote);
    assert(strokes_view(strokes@) =~= strokes_view(s1) + strokes_view(s2));
    Ok(strokes)
}

} // verus!
