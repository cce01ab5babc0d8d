//! The mesh store: vertex positions, texture coordinates, normals and
//! triangular faces parsed from a line-oriented description, plus the
//! decoded texture image the renderer samples.
//!
//! `Model::new` consumes the description as bytes (reading the file is
//! the caller's concern) and returns exactly what the grammar in
//! [`crate::parse`] prescribes, or the first error the grammar gives.

use vstd::prelude::*;
use crate::buffer::Image;
use crate::geom::Vec3;
use crate::parse::{
    ParseError, find_byte, skip_ws, token_end, spec_parse_decimal, spec_parse_corner,
    find_byte_from, skip_ws_from, token_end_from, parse_decimal, parse_corner,
    lemma_find_byte_ge,
};

verus! {

/// One triangular face: for each of the three corners, an index into the
/// vertex positions, the texture coordinates and the normals.
#[derive(Clone, Copy, Debug, PartialEq, Eq)]
pub struct FaceData {
    pub vertices: (usize, usize, usize),
    pub textures: (usize, usize, usize),
    pub normals: (usize, usize, usize),
}

/// The four sequences a mesh description denotes: vertex positions,
/// texture coordinates, normals and faces.
pub type MeshData = (Seq<Vec3>, Seq<Vec3>, Seq<Vec3>, Seq<FaceData>);

/// All nine indices of a face address existing entries.
pub open spec fn face_in_range(f: FaceData, nv: int, nt: int, nn: int) -> bool {
    &&& f.vertices.0 < nv
    &&& f.vertices.1 < nv
    &&& f.vertices.2 < nv
    &&& f.textures.0 < nt
    &&& f.textures.1 < nt
    &&& f.textures.2 < nt
    &&& f.normals.0 < nn
    &&& f.normals.1 < nn
    &&& f.normals.2 < nn
}

/// Every face addresses existing entries.
pub open spec fn all_faces_in_range(fs: Seq<FaceData>, nv: int, nt: int, nn: int) -> bool {
    forall|i: int| 0 <= i < fs.len() ==> face_in_range(#[trigger] fs[i], nv, nt, nn)
}

/// Three whitespace-separated decimal coordinates starting at `pos`,
/// as a fixed-point vector; a missing or malformed token is a number
/// error.  Tokens past the third are ignored.
pub open spec fn spec_parse_triple(l: Seq<u8>, pos: int) -> Result<Vec3, ParseError> {
    let s1 = skip_ws(l, pos);
    let e1 = token_end(l, s1);
    if s1 >= l.len() {
        Err(ParseError::MalformedNumber)
    } else {
        match spec_parse_decimal(l.subrange(s1, e1)) {
            None => Err(ParseError::MalformedNumber),
            Some(x) => {
                let s2 = skip_ws(l, e1);
                let e2 = token_end(l, s2);
                if s2 >= l.len() {
                    Err(ParseError::MalformedNumber)
                } else {
                    match spec_parse_decimal(l.subrange(s2, e2)) {
                        None => Err(ParseError::MalformedNumber),
                        Some(y) => {
                            let s3 = skip_ws(l, e2);
                            let e3 = token_end(l, s3);
                            if s3 >= l.len() {
                                Err(ParseError::MalformedNumber)
                            } else {
                                match spec_parse_decimal(l.subrange(s3, e3)) {
                                    None => Err(ParseError::MalformedNumber),
                                    Some(z) => Ok(Vec3 { x, y, z }),
                                }
                            }
                        },
                    }
                }
            },
        }
    }
}

/// Exactly three `index/index/index` corners starting at `pos`; anything
/// else — a missing corner, a malformed corner, or a fourth token — is a
/// face error.
pub open spec fn spec_parse_face(l: Seq<u8>, pos: int) -> Result<FaceData, ParseError> {
    let s1 = skip_ws(l, pos);
    let e1 = token_end(l, s1);
    if s1 >= l.len() {
        Err(ParseError::MalformedFace)
    } else {
        match spec_parse_corner(l.subrange(s1, e1)) {
            None => Err(ParseError::MalformedFace),
            Some(c1) => {
                let s2 = skip_ws(l, e1);
                let e2 = token_end(l, s2);
                if s2 >= l.len() {
                    Err(ParseError::MalformedFace)
                } else {
                    match spec_parse_corner(l.subrange(s2, e2)) {
                        None => Err(ParseError::MalformedFace),
                        Some(c2) => {
                            let s3 = skip_ws(l, e2);
                            let e3 = token_end(l, s3);
                            if s3 >= l.len() {
                                Err(ParseError::MalformedFace)
                            } else {
                                match spec_parse_corner(l.subrange(s3, e3)) {
                                    None => Err(ParseError::MalformedFace),
                                    Some(c3) => {
                                        let s4 = skip_ws(l, e3);
                                        if s4 < l.len() {
                                            Err(ParseError::MalformedFace)
                                        } else {
                                            Ok(FaceData {
                                                vertices: (c1.0, c2.0, c3.0),
                                                textures: (c1.1, c2.1, c3.1),
                                                normals: (c1.2, c2.2, c3.2),
                                            })
                                        }
                                    },
                                }
                            }
                        },
                    }
                }
            },
        }
    }
}

/// Effect of one line on the mesh being built: `v`, `vt` and `vn` append
/// a coordinate triple to their sequence, `f` appends a face, and any
/// other line (including a blank one) changes nothing.
pub open spec fn spec_parse_line(l: Seq<u8>, st: MeshData) -> Result<MeshData, ParseError> {
    let ds = skip_ws(l, 0);
    if ds >= l.len() {
        Ok(st)
    } else {
        let de = token_end(l, ds);
        let d = l.subrange(ds, de);
        if d == seq![118u8] {
            match spec_parse_triple(l, de) {
                Ok(v) => Ok((st.0.push(v), st.1, st.2, st.3)),
                Err(e) => Err(e),
            }
        } else if d == seq![118u8, 116u8] {
            match spec_parse_triple(l, de) {
                Ok(v) => Ok((st.0, st.1.push(v), st.2, st.3)),
                Err(e) => Err(e),
            }
        } else if d == seq![118u8, 110u8] {
            match spec_parse_triple(l, de) {
                Ok(v) => Ok((st.0, st.1, st.2.push(v), st.3)),
                Err(e) => Err(e),
            }
        } else if d == seq![102u8] {
            match spec_parse_face(l, de) {
                Ok(f) => Ok((st.0, st.1, st.2, st.3.push(f))),
                Err(e) => Err(e),
            }
        } else {
            Ok(st)
        }
    }
}

/// Folds the lines of `t` from position `i` over the state `st`; at the
/// end of the text the face indices are checked against the final array
/// lengths.
pub open spec fn parse_mesh_from(t: Seq<u8>, i: int, st: MeshData) -> Result<MeshData, ParseError>
    decreases t.len() + 1 - i,
    when 0 <= i
    via parse_mesh_from_decreases
{
    if i >= t.len() {
        if all_faces_in_range(st.3, st.0.len() as int, st.1.len() as int, st.2.len() as int) {
            Ok(st)
        } else {
            Err(ParseError::FaceIndexOutOfRange)
        }
    } else {
        let e = find_byte(t, 10, i);
        match spec_parse_line(t.subrange(i, e), st) {
            Err(er) => Err(er),
            Ok(st2) => parse_mesh_from(t, e + 1, st2),
        }
    }
}

#[via_fn]
proof fn parse_mesh_from_decreases(t: Seq<u8>, i: int, st: MeshData) {
    if i < t.len() {
        lemma_find_byte_ge(t, 10, i);
    }
}

/// The value of a whole mesh description: the four sequences it denotes,
/// or the first error in it.
pub open spec fn parse_mesh(t: Seq<u8>) -> Result<MeshData, ParseError> {
    parse_mesh_from(t, 0, (Seq::empty(), Seq::empty(), Seq::empty(), Seq::empty()))
}

/// The mesh store: the parsed arrays and the decoded texture.
#[derive(Debug)]
pub struct Model {
    pub verts: Vec<Vec3>,
    pub texture_verts: Vec<Vec3>,
    pub normal_verts: Vec<Vec3>,
    pub faces: Vec<FaceData>,
    pub texture: Image,
}

impl Model {
    /// Every coordinate is in range, every face addresses existing
    /// entries, and the texture is a consistent grid.
    pub open spec fn wf(self) -> bool {
        &&& self.texture.wf()
        &&& forall|i: int| 0 <= i < self.verts@.len() ==> (#[trigger] self.verts@[i]).in_range()
        &&& forall|i: int| 0 <= i < self.texture_verts@.len()
            ==> (#[trigger] self.texture_verts@[i]).in_range()
        &&& forall|i: int| 0 <= i < self.normal_verts@.len()
            ==> (#[trigger] self.normal_verts@[i]).in_range()
        &&& all_faces_in_range(
            self.faces@,
            self.verts@.len() as int,
            self.texture_verts@.len() as int,
            self.normal_verts@.len() as int,
        )
    }

    /// Parses a mesh description and attaches the given texture.  Returns
    /// exactly the arrays the grammar gives the text, or its first error.
    pub fn new(text: &[u8], texture: Image) -> (r: Result<Model, ParseError>)
        requires
            texture.wf(),
        ensures
            match r {
                Ok(m) => {
                    &&& parse_mesh(text@) matches Ok(st) && m.verts@ == st.0
                        && m.texture_verts@ == st.1 && m.normal_verts@ == st.2
                        && m.faces@ == st.3
                    &&& m.texture == texture
                    &&& m.wf()
                },
                Err(e) => parse_mesh(text@) == Err::<MeshData, ParseError>(e),
            },
    {
        let n: usize = text.len();
        let mut verts: Vec<Vec3> = Vec::new();
        let mut texture_verts: Vec<Vec3> = Vec::new();
        let mut normal_verts: Vec<Vec3> = Vec::new();
        let mut faces: Vec<FaceData> = Vec::new();
        let mut pos: usize = 0;
        while pos < n
            invariant
                pos <= n,
                n == text@.len(),
                parse_mesh(text@) == parse_mesh_from(
                    text@,
                    pos as int,
                    (verts@, texture_verts@, normal_verts@, faces@),
                ),
                forall|i: int| 0 <= i < verts@.len() ==> (#[trigger] verts@[i]).in_range(),
                forall|i: int| 0 <= i < texture_verts@.len()
                    ==> (#[trigger] texture_verts@[i]).in_range(),
                forall|i: int| 0 <= i < normal_verts@.len()
                    ==> (#[trigger] normal_verts@[i]).in_range(),
            decreases n - pos,
        {
            let e: usize = find_byte_from(text, 10, pos);
            let ghost st: MeshData = (verts@, texture_verts@, normal_verts@, faces@);
            let lslice: &[u8] = &text[pos..e];
            proof {
                assert(lslice@ == text@.subrange(pos as int, e as int));
            }
            let outcome = apply_line(
                lslice,
                &mut verts,
                &mut texture_verts,
                &mut normal_verts,
                &mut faces,
            );
            match outcome {
                Some(err) => {
                    proof {
                        assert(parse_mesh_from(text@, pos as int, st)
                            == Err::<MeshData, ParseError>(err));
                    }
                    return Err(err);
                },
                None => {},
            }
            let ghost st2: MeshData = (verts@, texture_verts@, normal_verts@, faces@);
            proof {
                assert(spec_parse_line(lslice@, st) == Ok::<MeshData, ParseError>(st2));
                assert(parse_mesh_from(text@, pos as int, st) == parse_mesh_from(text@, e + 1, st2));
                if e == n {
                    assert(parse_mesh_from(text@, e + 1, st2) == parse_mesh_from(text@, n as int, st2));
                }
            }
            pos = if e < n {
                e + 1
            } else {
                n
            };
        }
        let ghost st: MeshData = (verts@, texture_verts@, normal_verts@, faces@);
        let nv: usize = verts.len();
        let nt: usize = texture_verts.len();
        let nn: usize = normal_verts.len();
        let mut i: usize = 0;
        while i < faces.len()
            invariant
                i <= faces@.len(),
                nv == verts@.len(),
                nt == texture_verts@.len(),
                nn == normal_verts@.len(),
                st == (verts@, texture_verts@, normal_verts@, faces@),
                parse_mesh(text@) == parse_mesh_from(text@, text@.len() as int, st),
                forall|j: int| 0 <= j < i
                    ==> face_in_range(#[trigger] faces@[j], nv as int, nt as int, nn as int),
            decreases faces@.len() - i,
        {
            let f: FaceData = faces[i];
            if f.vertices.0 >= nv || f.vertices.1 >= nv || f.vertices.2 >= nv
                || f.textures.0 >= nt || f.textures.1 >= nt || f.textures.2 >= nt
                || f.normals.0 >= nn || f.normals.1 >= nn || f.normals.2 >= nn {
                proof {
                    assert(st.3[i as int] == faces@[i as int]);
                    assert(!face_in_range(st.3[i as int], st.0.len() as int, st.1.len() as int,
                        st.2.len() as int));
                    assert(!all_faces_in_range(st.3, st.0.len() as int, st.1.len() as int,
                        st.2.len() as int));
                }
                return Err(ParseError::FaceIndexOutOfRange);
            }
            i = i + 1;
        }
        proof {
            assert(all_faces_in_range(st.3, st.0.len() as int, st.1.len() as int,
                st.2.len() as int));
        }
        Ok(Model { verts, texture_verts, normal_verts, faces, texture })
    }

    /// The parsed vertex positions.
    pub fn verts(&self) -> (r: &Vec<Vec3>)
        ensures
            r@ == self.verts@,
    {
        &self.verts
    }

    /// The parsed texture coordinates.
    pub fn texture_verts(&self) -> (r: &Vec<Vec3>)
        ensures
            r@ == self.texture_verts@,
    {
        &self.texture_verts
    }

    /// The parsed normals.
    pub fn normal_verts(&self) -> (r: &Vec<Vec3>)
        ensures
            r@ == self.normal_verts@,
    {
        &self.normal_verts
    }

    /// The parsed faces.
    pub fn faces(&self) -> (r: &Vec<FaceData>)
        ensures
            r@ == self.faces@,
    {
        &self.faces
    }
}

/// Applies one line to the arrays being built; hands back the grammar's
/// error if the line has one.
fn apply_line(
    l: &[u8],
    verts: &mut Vec<Vec3>,
    texture_verts: &mut Vec<Vec3>,
    normal_verts: &mut Vec<Vec3>,
    faces: &mut Vec<FaceData>,
) -> (r: Option<ParseError>)
    ensures
        match spec_parse_line(l@, (old(verts)@, old(texture_verts)@, old(normal_verts)@, old(faces)@)) {
            Ok(st2) => {
                &&& r is None
                &&& final(verts)@ == st2.0
                &&& final(texture_verts)@ == st2.1
                &&& final(normal_verts)@ == st2.2
                &&& final(faces)@ == st2.3
            },
            Err(e) => r == Some(e),
        },
        forall|i: int| old(verts)@.len() <= i < final(verts)@.len()
            ==> (#[trigger] final(verts)@[i]).in_range(),
        forall|i: int| old(texture_verts)@.len() <= i < final(texture_verts)@.len()
            ==> (#[trigger] final(texture_verts)@[i]).in_range(),
        forall|i: int| old(normal_verts)@.len() <= i < final(normal_verts)@.len()
            ==> (#[trigger] final(normal_verts)@[i]).in_range(),
{
    let ghost st: MeshData = (old(verts)@, old(texture_verts)@, old(normal_verts)@, old(faces)@);
    let n: usize = l.len();
    let ds: usize = skip_ws_from(l, 0);
    if ds == n {
        return None;
    }
    let de: usize = token_end_from(l, ds);
    let ghost d: Seq<u8> = l@.subrange(ds as int, de as int);
    let dlen: usize = de - ds;
    if dlen == 1 && l[ds] == 118 {
        proof {
            assert(d =~= seq![118u8]);
        }
        match parse_triple(l, de) {
            Ok(v) => {
                verts.push(v);
                None
            },
            Err(e) => Some(e),
        }
    } else if dlen == 2 && l[ds] == 118 && l[ds + 1] == 116 {
        proof {
            assert(d =~= seq![118u8, 116u8]);
            assert(seq![118u8].len() == 1);
            assert(d.len() == 2);
        }
        match parse_triple(l, de) {
            Ok(v) => {
                texture_verts.push(v);
                None
            },
            Err(e) => Some(e),
        }
    } else if dlen == 2 && l[ds] == 118 && l[ds + 1] == 110 {
        proof {
            assert(d =~= seq![118u8, 110u8]);
            assert(seq![118u8].len() == 1);
            assert(d.len() == 2);
            assert(seq![118u8, 116u8][1] == 116u8);
            assert(d[1] == 110);
        }
        match parse_triple(l, de) {
            Ok(v) => {
                normal_verts.push(v);
                None
            },
            Err(e) => Some(e),
        }
    } else if dlen == 1 && l[ds] == 102 {
        proof {
            assert(d =~= seq![102u8]);
            assert(d.len() == 1);
            assert(seq![118u8, 116u8].len() == 2);
            assert(seq![118u8, 110u8].len() == 2);
            assert(seq![118u8][0] == 118u8);
            assert(d[0] == 102);
        }
        match parse_face_line(l, de) {
            Ok(f) => {
                faces.push(f);
                None
            },
            Err(e) => Some(e),
        }
    } else {
        proof {
            if d == seq![118u8] {
                assert(d.len() == 1 && d[0] == 118);
                assert(l@[ds as int] == 118);
                assert(false);
            }
            if d == seq![118u8, 116u8] {
                assert(d.len() == 2 && d[0] == 118 && d[1] == 116);
                assert(false);
            }
            if d == seq![118u8, 110u8] {
                assert(d.len() == 2 && d[0] == 118 && d[1] == 110);
                assert(false);
            }
            if d == seq![102u8] {
                assert(d.len() == 1 && d[0] == 102);
                assert(false);
            }
        }
        None
    }
}

/// Reads three decimal coordinate tokens starting at `pos`.
fn parse_triple(l: &[u8], pos: usize) -> (r: Result<Vec3, ParseError>)
    requires
        pos <= l@.len(),
    ensures
        r == spec_parse_triple(l@, pos as int),
        r matches Ok(v) ==> v.in_range(),
{
    let n: usize = l.len();
    let s1: usize = skip_ws_from(l, pos);
    if s1 == n {
        return Err(ParseError::MalformedNumber);
    }
    let e1: usize = token_end_from(l, s1);
    let x: i64 = match parse_decimal(&l[s1..e1]) {
        None => {
            return Err(ParseError::MalformedNumber);
        },
        Some(v) => v,
    };
    let s2: usize = skip_ws_from(l, e1);
    if s2 == n {
        return Err(ParseError::MalformedNumber);
    }
    let e2: usize = token_end_from(l, s2);
    let y: i64 = match parse_decimal(&l[s2..e2]) {
        None => {
            return Err(ParseError::MalformedNumber);
        },
        Some(v) => v,
    };
    let s3: usize = skip_ws_from(l, e2);
    if s3 == n {
        return Err(ParseError::MalformedNumber);
    }
    let e3: usize = token_end_from(l, s3);
    let z: i64 = match parse_decimal(&l[s3..e3]) {
        None => {
            return Err(ParseError::MalformedNumber);
        },
        Some(v) => v,
    };
    Ok(Vec3 { x, y, z })
}

/// Reads exactly three face corner tokens starting at `pos`.
fn parse_face_line(l: &[u8], pos: usize) -> (r: Result<FaceData, ParseError>)
    requires
        pos <= l@.len(),
    ensures
        r == spec_parse_face(l@, pos as int),
{
    let n: usize = l.len();
    let s1: usize = skip_ws_from(l, pos);
    if s1 == n {
        return Err(ParseError::MalformedFace);
    }
    let e1: usize = token_end_from(l, s1);
    let c1: (usize, usize, usize) = match parse_corner(&l[s1..e1]) {
        None => {
            return Err(ParseError::MalformedFace);
        },
        Some(c) => c,
    };
    let s2: usize = skip_ws_from(l, e1);
    if s2 == n {
        return Err(ParseError::MalformedFace);
    }
    let e2: usize = token_end_from(l, s2);
    let c2: (usize, usize, usize) = match parse_corner(&l[s2..e2]) {
        None => {
            return Err(ParseError::MalformedFace);
        },
        Some(c) => c,
    };
    let s3: usize = skip_ws_from(l, e2);
    if s3 == n {
        return Err(ParseError::MalformedFace);
    }
    let e3: usize = token_end_from(l, s3);
    let c3: (usize, usize, usize) = match parse_corner(&l[s3..e3]) {
        None => {
            return Err(ParseError::MalformedFace);
        },
        Some(c) => c,
    };
    let s4: usize = skip_ws_from(l, e3);
    if s4 < n {
        return Err(ParseError::MalformedFace);
    }
    Ok(FaceData {
        vertices: (c1.0, c2.0, c3.0),
        textures: (c1.1, c2.1, c3.1),
        normals: (c1.2, c2.2, c3.2),
    })
}

} // verus!
