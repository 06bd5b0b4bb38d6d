//! Loading triangle meshes from ASCII PLY data.
//!
//! The accepted subset: a `ply` magic line, `format ascii 1.0`, comment
//! lines anywhere in the header, one `element vertex N` whose first
//! three properties are named `x`, `y` and `z`, one `element face M`
//! with a list property, `end_header`, then `N` vertex lines (their
//! first three numbers are the coordinates, as plain decimals) and `M`
//! face lines of exactly three vertex indices each.  Coordinates parse
//! into fixed point exactly: the contract of the number parser states
//! the value digit by digit.

use vstd::prelude::*;
use crate::fx::{SCALE, COORD_MAX, tdiv};
use crate::vec3::{Vec3, in_box};
use crate::shape::mesh::{Mesh, Triangle};

verus! {

/// Why a PLY source was rejected.
#[derive(Clone, Copy, Debug, PartialEq, Eq, Structural)]
pub enum PlyError {
    /// The first line is not `ply`.
    BadMagic,
    /// The format line is not `format ascii 1.0`.
    BadFormat,
    /// The header is malformed or lacks the vertex/face elements.
    BadHeader,
    /// A vertex line does not hold three decimal coordinates.
    BadVertex,
    /// A face line does not hold exactly three entries.
    BadFace,
    /// A face refers to a vertex that does not exist.
    BadIndex,
    /// The file holds no triangles.
    Empty,
    /// A coordinate lies outside the mesh box.
    OutOfRange,
}

/// Whitespace inside a line.
pub open spec fn is_ws(b: u8) -> bool {
    b == 32 || b == 9 || b == 13
}

pub open spec fn is_digit(b: u8) -> bool {
    48 <= b <= 57
}

/// The value of the decimal digits `data[s..e]`.
pub open spec fn spec_digits_val(data: Seq<u8>, s: int, e: int) -> int
    decreases e - s,
{
    if e <= s {
        0
    } else {
        spec_digits_val(data, s, e - 1) * 10 + (data[e - 1] - 48)
    }
}

pub open spec fn all_digits(data: Seq<u8>, s: int, e: int) -> bool {
    forall|i: int| s <= i < e ==> is_digit(#[trigger] data[i])
}

/// Ten to the `k`.
pub open spec fn pow10(k: nat) -> int
    decreases k,
{
    if k == 0 {
        1
    } else {
        10 * pow10((k - 1) as nat)
    }
}

/// The fixed-point value of a decimal with integer part `ip`, fraction
/// digits valued `fp` over `k` digits: `(ip.fp) * SCALE`, truncated.
pub open spec fn spec_fixed_of(ip: int, fp: int, k: nat) -> int {
    tdiv((ip * pow10(k) + fp) * (SCALE as int), pow10(k))
}

fn byte_is_ws(b: u8) -> (r: bool)
    ensures
        r == is_ws(b),
{
    b == 32 || b == 9 || b == 13
}

fn byte_is_digit(b: u8) -> (r: bool)
    ensures
        r == is_digit(b),
{
    48 <= b && b <= 57
}

/// The end of the current line: the index of the next newline (or the
/// end of the data), and the position just past it.
fn line_end(data: &[u8], from: usize) -> (r: (usize, usize))
    requires
        from <= data@.len(),
    ensures
        from <= r.0 <= data@.len(),
        r.0 < data@.len() ==> data@[r.0 as int] == 10,
        forall|i: int| from <= i < r.0 ==> data@[i] != 10,
        r.1 == if r.0 < data@.len() {
            r.0 + 1
        } else {
            r.0 as int
        },
{
    let n = data.len();
    let mut i = from;
    while i < n
        invariant
            from <= i <= n,
            n == data@.len(),
            forall|k: int| from <= k < i ==> data@[k] != 10,
        decreases n - i,
    {
        if data[i] == 10 {
            return (i, i + 1);
        }
        i = i + 1;
    }
    (n, n)
}

/// Skips whitespace within `[from, to)`.
fn skip_ws(data: &[u8], from: usize, to: usize) -> (p: usize)
    requires
        from <= to <= data@.len(),
    ensures
        from <= p <= to,
        forall|i: int| from <= i < p ==> is_ws(#[trigger] data@[i]),
        p < to ==> !is_ws(data@[p as int]),
{
    let mut i = from;
    while i < to
        invariant
            from <= i <= to,
            to <= data@.len(),
            forall|k: int| from <= k < i ==> is_ws(#[trigger] data@[k]),
        decreases to - i,
    {
        if !byte_is_ws(data[i]) {
            return i;
        }
        i = i + 1;
    }
    to
}

/// The next token within `[from, to)`: its start and end, or none if
/// only whitespace remains.
fn next_token(data: &[u8], from: usize, to: usize) -> (r: Option<(usize, usize)>)
    requires
        from <= to <= data@.len(),
    ensures
        match r {
            None => forall|i: int| from <= i < to ==> is_ws(#[trigger] data@[i]),
            Some((s, e)) => {
                &&& from <= s < e <= to
                &&& forall|i: int| s <= i < e ==> !is_ws(#[trigger] data@[i])
                &&& (e < to ==> is_ws(data@[e as int]))
                &&& forall|i: int| from <= i < s ==> is_ws(#[trigger] data@[i])
            },
        },
{
    let s = skip_ws(data, from, to);
    if s == to {
        return None;
    }
    let e = token_end(data, s, to);
    Some((s, e))
}

/// The end of the token starting at `s`: the first whitespace at or
/// after `s`, or `to`.
fn token_end(data: &[u8], s: usize, to: usize) -> (e: usize)
    requires
        s <= to <= data@.len(),
    ensures
        s <= e <= to,
        forall|i: int| s <= i < e ==> !is_ws(#[trigger] data@[i]),
        e < to ==> is_ws(data@[e as int]),
{
    let mut e = s;
    while e < to
        invariant
            s <= e <= to,
            to <= data@.len(),
            forall|k: int| s <= k < e ==> !is_ws(#[trigger] data@[k]),
        decreases to - e,
    {
        if byte_is_ws(data[e]) {
            return e;
        }
        e = e + 1;
    }
    to
}

/// Whether the token `data[s..e]` spells exactly `lit`.
fn token_is(data: &[u8], s: usize, e: usize, lit: &[u8]) -> (r: bool)
    requires
        s <= e <= data@.len(),
    ensures
        r == (e - s == lit@.len() && (forall|i: int|
            0 <= i < lit@.len() ==> data@[s + i] == lit@[i])),
{
    if e - s != lit.len() {
        return false;
    }
    let n = lit.len();
    let mut i: usize = 0;
    while i < n
        invariant
            0 <= i <= n,
            n == lit@.len(),
            e - s == n,
            s <= e <= data@.len(),
            forall|k: int| 0 <= k < i ==> data@[s + k] == lit@[k],
        decreases n - i,
    {
        if data[s + i] != lit[i] {
            return false;
        }
        i = i + 1;
    }
    true
}

/// Parses `data[s..e]` as an unsigned decimal of at most 15 digits.
fn parse_u64(data: &[u8], s: usize, e: usize) -> (r: Option<u64>)
    requires
        s <= e <= data@.len(),
    ensures
        r is Some <==> (s < e && e - s <= 15 && all_digits(data@, s as int, e as int)),
        r is Some ==> r->Some_0 as int == spec_digits_val(data@, s as int, e as int),
{
    if s == e || e - s > 15 {
        return None;
    }
    let mut acc: u64 = 0;
    let mut i = s;
    while i < e
        invariant
            s <= i <= e,
            e <= data@.len(),
            e - s <= 15,
            all_digits(data@, s as int, i as int),
            acc as int == spec_digits_val(data@, s as int, i as int),
            acc < 0x8000_0000_0000_0000,
        decreases e - i,
    {
        let b = data[i];
        if !byte_is_digit(b) {
            return None;
        }
        proof {
            lemma_digits_val_bound(data@, s as int, i as int + 1);
        }
        acc = acc * 10 + ((b - 48) as u64);
        i = i + 1;
    }
    Some(acc)
}

/// The value of at most 15 digits stays below `10^15`.
proof fn lemma_digits_val_bound(data: Seq<u8>, s: int, e: int)
    requires
        s <= e,
        all_digits(data, s, e),
        e - s <= 15,
    ensures
        0 <= spec_digits_val(data, s, e) < pow10((e - s) as nat),
        pow10((e - s) as nat) <= 1000000000000000,
    decreases e - s,
{
    if e <= s {
        assert(pow10(0) == 1);
    } else {
        lemma_digits_val_bound(data, s, e - 1);
        assert(pow10((e - s) as nat) == 10 * pow10((e - s - 1) as nat));
    }
    lemma_pow10_le(((e - s) as nat), 15);
    lemma_pow10_concrete();
}

/// `pow10` is positive and monotone.
proof fn lemma_pow10_le(k: nat, m: nat)
    requires
        k <= m,
    ensures
        0 < pow10(k) <= pow10(m),
    decreases m,
{
    if m > 0 {
        if k == m {
            lemma_pow10_le((m - 1) as nat, (m - 1) as nat);
        } else {
            lemma_pow10_le(k, (m - 1) as nat);
        }
    }
}

/// The fixed-point value of the decimal written at `data[s1..e]` with
/// the dot (if any) at `dot`.
pub open spec fn spec_parse_fixed_at(data: Seq<u8>, s1: int, e: int, dot: int) -> int {
    spec_fixed_of(
        spec_digits_val(data, s1, dot),
        if dot < e {
            spec_digits_val(data, dot + 1, e)
        } else {
            0
        },
        if dot < e {
            (e - dot - 1) as nat
        } else {
            0
        },
    )
}

/// That `data[s1..e]` is a run of digits with an optional dot at `dot`
/// and fraction digits after it, whose fixed-point value is `val`.
pub open spec fn fixed_token_at(data: Seq<u8>, s1: int, e: int, dot: int, val: int) -> bool {
    &&& s1 <= dot <= e
    &&& (dot < e ==> data[dot] == 46)
    &&& all_digits(data, s1, dot)
    &&& (dot < e ==> all_digits(data, dot + 1, e))
    &&& val == spec_parse_fixed_at(data, s1, e, dot)
}

/// Parses `data[s..e]` as a signed decimal with an optional fraction:
/// at most 12 integer digits and 9 fraction digits, exactly the
/// fixed-point value of the written number (rounded toward zero).
fn parse_fixed(data: &[u8], s: usize, e: usize) -> (r: Option<i64>)
    requires
        s <= e <= data@.len(),
    ensures
        r is Some ==> s < e,
        r is Some && data@[s as int] != 45 ==> exists|dot: int|
            #[trigger] fixed_token_at(data@, s as int, e as int, dot, r->Some_0 as int),
        r is Some && data@[s as int] == 45 ==> exists|dot: int|
            #[trigger] fixed_token_at(data@, s as int + 1, e as int, dot, -(r->Some_0 as int)),
{
    if s == e {
        return None;
    }
    let (start, neg) = if data[s] == 45 {
        (s + 1, true)
    } else {
        (s, false)
    };
    if start == e {
        return None;
    }
    let dot = find_dot(data, start, e);
    if dot == start || dot - start > 12 {
        return None;
    }
    let ip = match parse_u64(data, start, dot) {
        None => {
            return None;
        },
        Some(v) => v,
    };
    let (fp, k) = if dot < e {
        if e - dot - 1 == 0 || e - dot - 1 > 9 {
            return None;
        }
        match parse_u64(data, dot + 1, e) {
            None => {
                return None;
            },
            Some(v) => (v, e - dot - 1),
        }
    } else {
        (0u64, 0usize)
    };
    proof {
        lemma_digits_val_bound(data@, start as int, dot as int);
        if dot < e {
            lemma_digits_val_bound(data@, dot as int + 1, e as int);
        }
    }
    let p = pow10_exec(k);
    proof {
        crate::fx::lemma_mul_abs_bound(ip as int, 1000000000000000, p as int, 1000000000000000);
        assert(1000000000000000int * 1000000000000000 == 1000000000000000000000000000000int);
        crate::fx::lemma_mul_abs_bound(
            (ip as int) * (p as int) + fp as int,
            1000000000000000000000000000000int + 1000000000000000,
            SCALE as int,
            SCALE as int,
        );
    }
    let num = ((ip as i128) * (p as i128) + (fp as i128)) * (SCALE as i128);
    proof {
        crate::fx::lemma_tdiv_bound(num as int, p as int,
            0x4000_0000_0000_0000_0000_0000_0000_0000);
        assert(num as int >= 0) by (nonlinear_arith)
            requires
                num as int == ((ip as int) * (p as int) + fp as int) * (SCALE as int),
                ip >= 0,
                fp >= 0,
                p >= 1,
                SCALE >= 1,
        ;
    }
    let q = num / (p as i128);
    if q > i64::MAX as i128 {
        return None;
    }
    let v = q as i64;
    let res = if neg {
        Some(-v)
    } else {
        Some(v)
    };
    proof {
        assert(v as int == spec_parse_fixed_at(data@, start as int, e as int, dot as int));
        let d = dot as int;
        if neg {
            assert(fixed_token_at(data@, s as int + 1, e as int, d, -(res->Some_0 as int)));
        } else {
            assert(fixed_token_at(data@, s as int, e as int, d, res->Some_0 as int));
        }
    }
    res
}

/// The first dot at or after `start`, or `e`.
fn find_dot(data: &[u8], start: usize, e: usize) -> (dot: usize)
    requires
        start <= e <= data@.len(),
    ensures
        start <= dot <= e,
        forall|i: int| start <= i < dot ==> data@[i] != 46,
        dot < e ==> data@[dot as int] == 46,
{
    let mut dot = start;
    while dot < e
        invariant
            start <= dot <= e,
            e <= data@.len(),
            forall|k: int| start <= k < dot ==> data@[k] != 46,
        decreases e - dot,
    {
        if data[dot] == 46 {
            return dot;
        }
        dot = dot + 1;
    }
    e
}

/// `pow10(k)` for `k <= 15`, as a machine integer.
fn pow10_exec(k: usize) -> (r: u64)
    requires
        k <= 15,
    ensures
        r as int == pow10(k as nat),
        1 <= r <= 1000000000000000,
{
    proof {
        lemma_pow10_concrete();
    }
    let mut r: u64 = 1;
    let mut i: usize = 0;
    while i < k
        invariant
            0 <= i <= k <= 15,
            r as int == pow10(i as nat),
            1 <= r as int <= 1000000000000000,
        decreases k - i,
    {
        proof {
            lemma_pow10_le(i as nat + 1, 15);
            lemma_pow10_concrete();
            assert(pow10((i + 1) as nat) == 10 * pow10(i as nat));
        }
        r = r * 10;
        i = i + 1;
    }
    proof {
        lemma_pow10_le(k as nat, 15);
    }
    r
}

impl Mesh {
    /// Loads a triangle mesh from ASCII PLY contents, placed around
    /// `center`.  The header must declare a vertex element whose first
    /// three properties are `x`, `y`, `z` and a face element; every face
    /// must list exactly three vertex indices; every coordinate must
    /// parse as a plain decimal and land inside the mesh box.
    pub fn from_ply(center: Vec3, ply_contents: &[u8]) -> (res: Result<Mesh, PlyError>)
        requires
            in_box(center, COORD_MAX as int),
        ensures
            res is Ok ==> res->Ok_0.wf() && res->Ok_0.center == center,
    {
        let data = ply_contents;
        let n = data.len();
        let mut pos: usize = 0;
        // magic line
        let r0 = line_end(data, pos);
        match next_token(data, pos, r0.0) {
            None => {
                return Err(PlyError::BadMagic);
            },
            Some((s, e)) => {
                if !token_is(data, s, e, &[112, 108, 121]) {
                    return Err(PlyError::BadMagic);
                }
                match next_token(data, e, r0.0) {
                    Some(_) => {
                        return Err(PlyError::BadMagic);
                    },
                    None => {},
                }
            },
        }
        pos = r0.1;
        // format line
        let r1 = line_end(data, pos);
        match next_token(data, pos, r1.0) {
            None => {
                return Err(PlyError::BadFormat);
            },
            Some((s, e)) => {
                if !token_is(data, s, e, &[102, 111, 114, 109, 97, 116]) {
                    return Err(PlyError::BadFormat);
                }
                match next_token(data, e, r1.0) {
                    None => {
                        return Err(PlyError::BadFormat);
                    },
                    Some((s2, e2)) => {
                        if !token_is(data, s2, e2, &[97, 115, 99, 105, 105]) {
                            return Err(PlyError::BadFormat);
                        }
                        match next_token(data, e2, r1.0) {
                            None => {
                                return Err(PlyError::BadFormat);
                            },
                            Some((s3, e3)) => {
                                if !token_is(data, s3, e3, &[49, 46, 48]) {
                                    return Err(PlyError::BadFormat);
                                }
                            },
                        }
                    },
                }
            },
        }
        pos = r1.1;
        // the rest of the header
        let mut nvert: usize = 0;
        let mut nface: usize = 0;
        let mut have_vert = false;
        let mut have_face = false;
        let mut in_vertex = false;
        let mut vprops: usize = 0;
        let mut done = false;
        while pos < n && !done
            invariant
                pos <= n,
                n == data@.len(),
            decreases n - pos,
        {
            let rl = line_end(data, pos);
            let le = rl.0;
            let np = rl.1;
            match next_token(data, pos, le) {
                None => {},
                Some((s, e)) => {
                    if token_is(data, s, e, &[99, 111, 109, 109, 101, 110, 116]) {
                    } else if token_is(data, s, e, &[101, 110, 100, 95, 104, 101, 97, 100, 101, 114]) {
                        done = true;
                    } else if token_is(data, s, e, &[101, 108, 101, 109, 101, 110, 116]) {
                        match next_token(data, e, le) {
                            None => {
                                return Err(PlyError::BadHeader);
                            },
                            Some((s2, e2)) => {
                                let cnt = match next_token(data, e2, le) {
                                    None => {
                                        return Err(PlyError::BadHeader);
                                    },
                                    Some((s3, e3)) => match parse_u64(data, s3, e3) {
                                        None => {
                                            return Err(PlyError::BadHeader);
                                        },
                                        Some(v) => v,
                                    },
                                };
                                if token_is(data, s2, e2, &[118, 101, 114, 116, 101, 120]) {
                                    if cnt > 100000 {
                                        return Err(PlyError::BadHeader);
                                    }
                                    nvert = cnt as usize;
                                    have_vert = true;
                                    in_vertex = true;
                                } else if token_is(data, s2, e2, &[102, 97, 99, 101]) {
                                    if cnt > 1000000 {
                                        return Err(PlyError::BadHeader);
                                    }
                                    nface = cnt as usize;
                                    have_face = true;
                                    in_vertex = false;
                                } else {
                                    return Err(PlyError::BadHeader);
                                }
                            },
                        }
                    } else if token_is(data, s, e, &[112, 114, 111, 112, 101, 114, 116, 121]) {
                        if in_vertex && vprops < 3 {
                            match next_token(data, e, le) {
                                None => {
                                    return Err(PlyError::BadHeader);
                                },
                                Some((s2, e2)) => {
                                    if token_is(data, s2, e2, &[108, 105, 115, 116]) {
                                        return Err(PlyError::BadHeader);
                                    }
                                    match next_token(data, e2, le) {
                                        None => {
                                            return Err(PlyError::BadHeader);
                                        },
                                        Some((s3, e3)) => {
                                            let ok = if vprops == 0 {
                                                token_is(data, s3, e3, &[120])
                                            } else if vprops == 1 {
                                                token_is(data, s3, e3, &[121])
                                            } else {
                                                token_is(data, s3, e3, &[122])
                                            };
                                            if !ok {
                                                return Err(PlyError::BadHeader);
                                            }
                                        },
                                    }
                                },
                            }
                            vprops = vprops + 1;
                        }
                    } else {
                        return Err(PlyError::BadHeader);
                    }
                },
            }
            pos = if np > pos {
                np
            } else {
                n
            };
        }
        if !done || !have_vert || !have_face || vprops < 3 {
            return Err(PlyError::BadHeader);
        }
        // vertex lines
        let mut verts: Vec<Vec3> = Vec::new();
        let mut i: usize = 0;
        while i < nvert
            invariant
                pos <= n,
                n == data@.len(),
                i <= nvert,
                verts@.len() == i,
            decreases nvert - i,
        {
            if pos >= n {
                return Err(PlyError::BadVertex);
            }
            let rl = line_end(data, pos);
            let le = rl.0;
            let np = rl.1;
            let (x, ex) = match next_token(data, pos, le) {
                None => {
                    return Err(PlyError::BadVertex);
                },
                Some((s, e)) => match parse_fixed(data, s, e) {
                    None => {
                        return Err(PlyError::BadVertex);
                    },
                    Some(v) => (v, e),
                },
            };
            let (y, ey) = match next_token(data, ex, le) {
                None => {
                    return Err(PlyError::BadVertex);
                },
                Some((s, e)) => match parse_fixed(data, s, e) {
                    None => {
                        return Err(PlyError::BadVertex);
                    },
                    Some(v) => (v, e),
                },
            };
            let z = match next_token(data, ey, le) {
                None => {
                    return Err(PlyError::BadVertex);
                },
                Some((s, e)) => match parse_fixed(data, s, e) {
                    None => {
                        return Err(PlyError::BadVertex);
                    },
                    Some(v) => v,
                },
            };
            verts.push(Vec3 { x, y, z });
            pos = if np > pos {
                np
            } else {
                n
            };
            i = i + 1;
        }
        // face lines
        let mut tris: Vec<Triangle> = Vec::new();
        let mut j: usize = 0;
        while j < nface
            invariant
                pos <= n,
                n == data@.len(),
                j <= nface,
                verts@.len() == nvert,
            decreases nface - j,
        {
            if pos >= n {
                return Err(PlyError::BadFace);
            }
            let rl = line_end(data, pos);
            let le = rl.0;
            let np = rl.1;
            let (cnt, e0) = match next_token(data, pos, le) {
                None => {
                    return Err(PlyError::BadFace);
                },
                Some((s, e)) => match parse_u64(data, s, e) {
                    None => {
                        return Err(PlyError::BadFace);
                    },
                    Some(v) => (v, e),
                },
            };
            if cnt != 3 {
                return Err(PlyError::BadFace);
            }
            let (i0, e1) = match next_token(data, e0, le) {
                None => {
                    return Err(PlyError::BadFace);
                },
                Some((s, e)) => match parse_u64(data, s, e) {
                    None => {
                        return Err(PlyError::BadFace);
                    },
                    Some(v) => (v, e),
                },
            };
            let (i1, e2) = match next_token(data, e1, le) {
                None => {
                    return Err(PlyError::BadFace);
                },
                Some((s, e)) => match parse_u64(data, s, e) {
                    None => {
                        return Err(PlyError::BadFace);
                    },
                    Some(v) => (v, e),
                },
            };
            let (i2, e3) = match next_token(data, e2, le) {
                None => {
                    return Err(PlyError::BadFace);
                },
                Some((s, e)) => match parse_u64(data, s, e) {
                    None => {
                        return Err(PlyError::BadFace);
                    },
                    Some(v) => (v, e),
                },
            };
            match next_token(data, e3, le) {
                Some(_) => {
                    return Err(PlyError::BadFace);
                },
                None => {},
            }
            if i0 >= nvert as u64 || i1 >= nvert as u64 || i2 >= nvert as u64 {
                return Err(PlyError::BadIndex);
            }
            let a = verts[i0 as usize];
            let b = verts[i1 as usize];
            let c = verts[i2 as usize];
            tris.push(Triangle { a, b, c });
            pos = if np > pos {
                np
            } else {
                n
            };
            j = j + 1;
        }
        if tris.len() == 0 {
            return Err(PlyError::Empty);
        }
        match Mesh::new(center, tris) {
            None => Err(PlyError::OutOfRange),
            Some(m) => Ok(m),
        }
    }
}

/// The powers of ten up to fifteen are the expected literals.
proof fn lemma_pow10_concrete()
    ensures
        pow10(0) == 1,
        pow10(15) == 1000000000000000,
{
    reveal_with_fuel(pow10, 17);
}

} // verus!
