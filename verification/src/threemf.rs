//! Reading the triangles of a 3MF package: every `.model` part of the ZIP
//! archive is scanned as XML for `<vertex>` and `<triangle>` elements inside
//! `<mesh>`, tolerating any other structure.
use vstd::prelude::*;
use vstd::string::StrSliceExecFns;
use crate::mesh::{
    built_from_triangles, deterministic_normals, is_read_error, lemma_built_from_triangles_unique, same_result,
    total_on_triangles, Mesh, MeshError, Normal, Triangle,
};
use crate::readers::{
    read_3mf, threemf_data, threemf_models_of, ThreeMfMesh, ThreeMfMeshData, ThreeMfModel,
    attribute_data, event_data, xml_events, xml_events_of, zip_entry_count, zip_entry_count_of, zip_entry_data,
    zip_entry_data_of, zip_entry_name, zip_entry_name_of, XmlAttribute, XmlEvent, XmlEventData,
};
use crate::text::{ends_with_text, parse_unsigned, parse_unsigned_spec, same_text, IntError};

verus! {

/// The state of the scan of one model part.
pub struct ScanState {
    pub in_mesh: bool,
    pub in_vertices: bool,
    pub in_triangles: bool,
    /// The vertices of the current `<mesh>`.
    pub vertices: Seq<[u32; 3]>,
}

/// The state at the start of a part.
pub open spec fn initial_scan() -> ScanState {
    ScanState { in_mesh: false, in_vertices: false, in_triangles: false, vertices: Seq::empty() }
}

/// The parser gives one result for each text.
pub open spec fn parses_consistently<P: Fn(&str) -> Result<u32, String>>(parse: P) -> bool {
    forall|a: &str, b: &str, ra: Result<u32, String>, rb: Result<u32, String>|
        a@ == b@ && #[trigger] parse.ensures((a,), ra) && #[trigger] parse.ensures((b,), rb) ==> ra == rb
}

/// The parser accepts every text.
pub open spec fn parses_all<P: Fn(&str) -> Result<u32, String>>(parse: P) -> bool {
    forall|a: &str| #[trigger] parse.requires((a,))
}

/// What the coordinate parser gives for `text`.
pub open spec fn coordinate<P: Fn(&str) -> Result<u32, String>>(parse: P, text: Seq<char>) -> Result<u32, String> {
    (choose|r: Result<u32, String>, a: &str| a@ == text && #[trigger] parse.ensures((a,), r)).0
}

proof fn lemma_coordinate<P: Fn(&str) -> Result<u32, String>>(parse: P, a: &str, r: Result<u32, String>)
    requires
        parses_consistently(parse),
        parse.ensures((a,), r),
    ensures
        coordinate(parse, a@) == r,
{
    assert(exists|s: Result<u32, String>, b: &str| b@ == a@ && #[trigger] parse.ensures((b,), s));
    let (c, b) = choose|s: Result<u32, String>, b: &str| b@ == a@ && #[trigger] parse.ensures((b,), s);
    assert(parse.ensures((b,), c));
}

pub open spec fn name_mesh() -> Seq<char> { seq!['m', 'e', 's', 'h'] }

pub open spec fn name_vertices() -> Seq<char> { seq!['v', 'e', 'r', 't', 'i', 'c', 'e', 's'] }

pub open spec fn name_triangles() -> Seq<char> { seq!['t', 'r', 'i', 'a', 'n', 'g', 'l', 'e', 's'] }

pub open spec fn name_vertex() -> Seq<char> { seq!['v', 'e', 'r', 't', 'e', 'x'] }

pub open spec fn name_triangle() -> Seq<char> { seq!['t', 'r', 'i', 'a', 'n', 'g', 'l', 'e'] }

/// The coordinates of a `<vertex>`: `x`, `y` and `z` attributes parsed in order
/// (a later one of a name wins), missing ones zero; the first parse error ends it.
pub open spec fn read_vertex<P: Fn(&str) -> Result<u32, String>>(
    attrs: Seq<(Seq<char>, Seq<char>)>,
    parse: P,
) -> Result<[u32; 3], MeshError>
    decreases attrs.len(),
{
    if attrs.len() == 0 {
        Ok([0, 0, 0])
    } else {
        match read_vertex(attrs.drop_last(), parse) {
            Err(e) => Err(e),
            Ok(v) => {
                let (key, value) = attrs.last();
                if key == seq!['x'] || key == seq!['y'] || key == seq!['z'] {
                    match coordinate(parse, value) {
                        Err(m) => Err(MeshError::InvalidCoordinate(m)),
                        Ok(c) => if key == seq!['x'] {
                            Ok([c, v[1], v[2]])
                        } else if key == seq!['y'] {
                            Ok([v[0], c, v[2]])
                        } else {
                            Ok([v[0], v[1], c])
                        },
                    }
                } else {
                    Ok(v)
                }
            },
        }
    }
}

/// The corner indices of a `<triangle>`: `v1`, `v2` and `v3` attributes parsed
/// in order as `usize`, missing ones zero; the first parse error ends it.
pub open spec fn read_triangle(attrs: Seq<(Seq<char>, Seq<char>)>) -> Result<(usize, usize, usize), MeshError>
    decreases attrs.len(),
{
    if attrs.len() == 0 {
        Ok((0usize, 0usize, 0usize))
    } else {
        match read_triangle(attrs.drop_last()) {
            Err(e) => Err(e),
            Ok(v) => {
                let (key, value) = attrs.last();
                if key == seq!['v', '1'] || key == seq!['v', '2'] || key == seq!['v', '3'] {
                    match parse_unsigned_spec(value, usize::MAX as nat) {
                        Err(e) => Err(MeshError::InvalidIndex(e)),
                        Ok(c) => if key == seq!['v', '1'] {
                            Ok((c as usize, v.1, v.2))
                        } else if key == seq!['v', '2'] {
                            Ok((v.0, c as usize, v.2))
                        } else {
                            Ok((v.0, v.1, c as usize))
                        },
                    }
                } else {
                    Ok(v)
                }
            },
        }
    }
}

/// The bit pattern of `1.0f32`: the stored normal of 3MF triangles.
pub const ONE_F32: u32 = 0x3f80_0000;

/// One event of the scan: the next state and the triangle it yields, if any.
pub open spec fn scan_event<P: Fn(&str) -> Result<u32, String>>(
    st: ScanState,
    ev: XmlEventData,
    parse: P,
) -> Result<(ScanState, Option<Triangle>), MeshError> {
    match ev {
        XmlEventData::Open { name, attributes } => {
            if name == name_mesh() {
                Ok((ScanState { in_mesh: true, vertices: Seq::empty(), ..st }, None))
            } else if name == name_vertices() && st.in_mesh {
                Ok((ScanState { in_vertices: true, ..st }, None))
            } else if name == name_triangles() && st.in_mesh {
                Ok((ScanState { in_triangles: true, ..st }, None))
            } else if name == name_vertex() && st.in_vertices {
                match read_vertex(attributes, parse) {
                    Err(e) => Err(e),
                    Ok(v) => Ok((ScanState { vertices: st.vertices.push(v), ..st }, None)),
                }
            } else if name == name_triangle() && st.in_triangles {
                match read_triangle(attributes) {
                    Err(e) => Err(e),
                    Ok((a, b, c)) => {
                        let n = st.vertices.len();
                        if a < n && b < n && c < n {
                            Ok((st, Some(Triangle {
                                normal: [ONE_F32, 0, 0],
                                vertices: [st.vertices[a as int], st.vertices[b as int], st.vertices[c as int]],
                            })))
                        } else {
                            Ok((st, None))
                        }
                    },
                }
            } else {
                Ok((st, None))
            }
        },
        XmlEventData::Close { name } => {
            if name == name_mesh() {
                Ok((ScanState { in_mesh: false, ..st }, None))
            } else if name == name_vertices() {
                Ok((ScanState { in_vertices: false, ..st }, None))
            } else if name == name_triangles() {
                Ok((ScanState { in_triangles: false, ..st }, None))
            } else {
                Ok((st, None))
            }
        },
        XmlEventData::Other => Ok((st, None)),
    }
}

/// The scan of a part's events: the final state and the triangles found, in
/// order, or the first error.
pub open spec fn scan_document<P: Fn(&str) -> Result<u32, String>>(
    evs: Seq<XmlEventData>,
    parse: P,
) -> Result<(ScanState, Seq<Triangle>), MeshError>
    decreases evs.len(),
{
    if evs.len() == 0 {
        Ok((initial_scan(), Seq::empty()))
    } else {
        match scan_document(evs.drop_last(), parse) {
            Err(e) => Err(e),
            Ok((st, tris)) => match scan_event(st, evs.last(), parse) {
                Err(e) => Err(e),
                Ok((next, found)) => Ok((
                    next,
                    match found {
                        Some(t) => tris.push(t),
                        None => tris,
                    },
                )),
            },
        }
    }
}

/// The name of a model part ends in `.model`.
pub open spec fn is_model_part(name: Seq<char>) -> bool {
    let suffix = seq!['.', 'm', 'o', 'd', 'e', 'l'];
    name.len() >= suffix.len() && name.skip(name.len() - suffix.len()) == suffix
}

/// The scan of the first `n` entries of an archive: the message of the `zip`
/// crate when an entry cannot be read, else the triangles of its model parts in
/// order or the first error.
pub open spec fn scan_entries<P: Fn(&str) -> Result<u32, String>>(
    archive: Seq<u8>,
    n: nat,
    parse: P,
) -> Result<Result<Seq<Triangle>, MeshError>, Seq<char>>
    decreases n,
{
    if n == 0 {
        Ok(Ok(Seq::empty()))
    } else {
        match scan_entries(archive, (n - 1) as nat, parse) {
            Err(m) => Err(m),
            Ok(Err(e)) => Ok(Err(e)),
            Ok(Ok(tris)) => match zip_entry_name_of(archive, (n - 1) as nat) {
                Err(m) => Err(m),
                Ok(name) => if !is_model_part(name) {
                    Ok(Ok(tris))
                } else {
                    match scan_document(xml_events_of(zip_entry_data_of(archive, (n - 1) as nat)), parse) {
                        Err(e) => Ok(Err(e)),
                        Ok((_, more)) => Ok(Ok(tris + more)),
                    }
                },
            },
        }
    }
}

/// The scan of a whole archive.
pub open spec fn scan_archive<P: Fn(&str) -> Result<u32, String>>(
    archive: Seq<u8>,
    parse: P,
) -> Result<Result<Seq<Triangle>, MeshError>, Seq<char>> {
    match zip_entry_count_of(archive) {
        Err(m) => Err(m),
        Ok(n) => scan_entries(archive, n, parse),
    }
}

/// `r` is what the tolerant scan of the 3MF package `archive` gives: a failure
/// to read the archive as `Read` with the `zip` crate's message, the first error
/// of the scan as it is, no triangle as `NoMeshData`, and otherwise the mesh of
/// the triangles found, every normal computed.
pub open spec fn threemf_raw_outcome<F: Fn(&Triangle) -> Normal, P: Fn(&str) -> Result<u32, String>>(
    r: Result<Mesh, MeshError>,
    archive: Seq<u8>,
    parse: P,
    face_normal: F,
) -> bool {
    match scan_archive(archive, parse) {
        Err(m) => is_read_error(r, m),
        Ok(Err(e)) => r == Err::<Mesh, MeshError>(e),
        Ok(Ok(tris)) => if tris.len() == 0 {
            r matches Err(MeshError::NoMeshData)
        } else {
            r matches Ok(m) && built_from_triangles(m, tris, true, face_normal)
        },
    }
}

proof fn lemma_read_vertex_error_stays<P: Fn(&str) -> Result<u32, String>>(
    attrs: Seq<(Seq<char>, Seq<char>)>,
    m: int,
    k: int,
    parse: P,
)
    requires
        0 <= m <= k <= attrs.len(),
        read_vertex(attrs.take(m), parse) is Err,
    ensures
        read_vertex(attrs.take(k), parse) == read_vertex(attrs.take(m), parse),
    decreases k - m,
{
    if k > m {
        lemma_read_vertex_error_stays(attrs, m, k - 1, parse);
        assert(attrs.take(k).drop_last() =~= attrs.take(k - 1));
    }
}

proof fn lemma_read_triangle_error_stays(attrs: Seq<(Seq<char>, Seq<char>)>, m: int, k: int)
    requires
        0 <= m <= k <= attrs.len(),
        read_triangle(attrs.take(m)) is Err,
    ensures
        read_triangle(attrs.take(k)) == read_triangle(attrs.take(m)),
    decreases k - m,
{
    if k > m {
        lemma_read_triangle_error_stays(attrs, m, k - 1);
        assert(attrs.take(k).drop_last() =~= attrs.take(k - 1));
    }
}

proof fn lemma_scan_document_error_stays<P: Fn(&str) -> Result<u32, String>>(
    evs: Seq<XmlEventData>,
    m: int,
    k: int,
    parse: P,
)
    requires
        0 <= m <= k <= evs.len(),
        scan_document(evs.take(m), parse) is Err,
    ensures
        scan_document(evs.take(k), parse) == scan_document(evs.take(m), parse),
    decreases k - m,
{
    if k > m {
        lemma_scan_document_error_stays(evs, m, k - 1, parse);
        assert(evs.take(k).drop_last() =~= evs.take(k - 1));
    }
}

proof fn lemma_scan_entries_end_stays<P: Fn(&str) -> Result<u32, String>>(archive: Seq<u8>, m: nat, k: nat, parse: P)
    requires
        m <= k,
        !(scan_entries(archive, m, parse) matches Ok(Ok(_))),
    ensures
        scan_entries(archive, k, parse) == scan_entries(archive, m, parse),
    decreases k - m,
{
    if k > m {
        lemma_scan_entries_end_stays(archive, m, (k - 1) as nat, parse);
    }
}

/// Reads the coordinates of a `<vertex>` element.
fn read_vertex_exec<P: Fn(&str) -> Result<u32, String>>(attrs: &Vec<XmlAttribute>, parse: &P) -> (r: Result<[u32; 3], MeshError>)
    requires
        parses_consistently(*parse),
        parses_all(*parse),
    ensures
        r == read_vertex(attribute_data(attrs@), *parse),
{
    let ghost data = attribute_data(attrs@);
    let mut v: [u32; 3] = [0, 0, 0];
    assert(data.take(0) =~= Seq::<(Seq<char>, Seq<char>)>::empty());
    let mut i: usize = 0;
    while i < attrs.len()
        invariant
            data == attribute_data(attrs@),
            parses_consistently(*parse),
            parses_all(*parse),
            i <= attrs.len(),
            read_vertex(data.take(i as int), *parse) == Ok::<[u32; 3], MeshError>(v),
        decreases attrs.len() - i,
    {
        let key = attrs[i].key.as_str();
        let value = attrs[i].value.as_str();
        proof {
            reveal_strlit("x");
            reveal_strlit("y");
            reveal_strlit("z");
            assert("x"@ =~= seq!['x']);
            assert("y"@ =~= seq!['y']);
            assert("z"@ =~= seq!['z']);
            assert(data.take(i + 1).drop_last() =~= data.take(i as int));
            assert(data.take(i + 1).last() == (key@, value@));
        }
        let is_x = same_text(key, "x");
        let is_y = same_text(key, "y");
        let is_z = same_text(key, "z");
        if is_x || is_y || is_z {
            let parsed = parse(value);
            proof { lemma_coordinate(*parse, value, parsed); }
            match parsed {
                Err(m) => {
                    proof { lemma_read_vertex_error_stays(data, i + 1, data.len() as int, *parse); }
                    assert(data.take(data.len() as int) =~= data);
                    return Err(MeshError::InvalidCoordinate(m));
                },
                Ok(c) => {
                    if is_x {
                        v = [c, v[1], v[2]];
                    } else if is_y {
                        v = [v[0], c, v[2]];
                    } else {
                        v = [v[0], v[1], c];
                    }
                },
            }
        }
        i = i + 1;
    }
    assert(data.take(attrs.len() as int) =~= data);
    Ok(v)
}

/// Reads the corner indices of a `<triangle>` element.
fn read_triangle_exec(attrs: &Vec<XmlAttribute>) -> (r: Result<(usize, usize, usize), MeshError>)
    ensures
        r == read_triangle(attribute_data(attrs@)),
{
    let ghost data = attribute_data(attrs@);
    let mut v: (usize, usize, usize) = (0, 0, 0);
    assert(data.take(0) =~= Seq::<(Seq<char>, Seq<char>)>::empty());
    let mut i: usize = 0;
    while i < attrs.len()
        invariant
            data == attribute_data(attrs@),
            i <= attrs.len(),
            read_triangle(data.take(i as int)) == Ok::<(usize, usize, usize), MeshError>(v),
        decreases attrs.len() - i,
    {
        let key = attrs[i].key.as_str();
        let value = attrs[i].value.as_str();
        proof {
            reveal_strlit("v1");
            reveal_strlit("v2");
            reveal_strlit("v3");
            assert("v1"@ =~= seq!['v', '1']);
            assert("v2"@ =~= seq!['v', '2']);
            assert("v3"@ =~= seq!['v', '3']);
            assert(data.take(i + 1).drop_last() =~= data.take(i as int));
            assert(data.take(i + 1).last() == (key@, value@));
        }
        let is_1 = same_text(key, "v1");
        let is_2 = same_text(key, "v2");
        let is_3 = same_text(key, "v3");
        if is_1 || is_2 || is_3 {
            let max = usize::MAX as u64;
            assert(max as nat == usize::MAX as nat);
            match parse_unsigned(value, max) {
                Err(e) => {
                    proof { lemma_read_triangle_error_stays(data, i + 1, data.len() as int); }
                    assert(data.take(data.len() as int) =~= data);
                    return Err(MeshError::InvalidIndex(e));
                },
                Ok(c) => {
                    assert(c <= usize::MAX);
                    assert(parse_unsigned_spec(value@, usize::MAX as nat) == Ok::<nat, IntError>(c as nat));
                    let c = c as usize;
                    if is_1 {
                        v = (c, v.1, v.2);
                    } else if is_2 {
                        v = (v.0, c, v.2);
                    } else {
                        v = (v.0, v.1, c);
                    }
                },
            }
        }
        i = i + 1;
    }
    assert(data.take(attrs.len() as int) =~= data);
    Ok(v)
}

/// Scans the events of one model part, appending the triangles it yields.
fn scan_document_exec<P: Fn(&str) -> Result<u32, String>>(
    events: &Vec<XmlEvent>,
    parse: &P,
    tris: &mut Vec<Triangle>,
) -> (r: Result<(), MeshError>)
    requires
        parses_consistently(*parse),
        parses_all(*parse),
    ensures
        match scan_document(event_data(events@), *parse) {
            Ok((_, more)) => r is Ok && final(tris)@ == old(tris)@ + more,
            Err(e) => r == Err::<(), MeshError>(e),
        },
{
    let ghost data = event_data(events@);
    let ghost start = tris@;
    let mut in_mesh = false;
    let mut in_vertices = false;
    let mut in_triangles = false;
    let mut vertices: Vec<[u32; 3]> = Vec::new();
    assert(data.take(0) =~= Seq::<XmlEventData>::empty());
    assert(tris@ =~= start + Seq::<Triangle>::empty());
    let mut k: usize = 0;
    while k < events.len()
        invariant
            data == event_data(events@),
            parses_consistently(*parse),
            parses_all(*parse),
            k <= events.len(),
            start == old(tris)@,
            ({
                let st = ScanState { in_mesh, in_vertices, in_triangles, vertices: vertices@ };
                &&& scan_document(data.take(k as int), *parse) matches Ok((s, more))
                &&& s == st
                &&& tris@ == start + more
            }),
        decreases events.len() - k,
    {
        proof {
            reveal_strlit("mesh");
            reveal_strlit("vertices");
            reveal_strlit("triangles");
            reveal_strlit("vertex");
            reveal_strlit("triangle");
            assert("mesh"@ =~= name_mesh());
            assert("vertices"@ =~= name_vertices());
            assert("triangles"@ =~= name_triangles());
            assert("vertex"@ =~= name_vertex());
            assert("triangle"@ =~= name_triangle());
            assert(data.take(k + 1).drop_last() =~= data.take(k as int));
            assert(data.take(k + 1).last() == events@[k as int]@);
        }
        let ghost more = tris@.skip(start.len() as int);
        assert(tris@ =~= start + more);
        match &events[k] {
            XmlEvent::Open { name, attributes } => {
                let name = name.as_str();
                if same_text(name, "mesh") {
                    in_mesh = true;
                    vertices = Vec::new();
                } else if same_text(name, "vertices") && in_mesh {
                    in_vertices = true;
                } else if same_text(name, "triangles") && in_mesh {
                    in_triangles = true;
                } else if same_text(name, "vertex") && in_vertices {
                    match read_vertex_exec(attributes, parse) {
                        Err(e) => {
                            proof { lemma_scan_document_error_stays(data, k + 1, data.len() as int, *parse); }
                            assert(data.take(data.len() as int) =~= data);
                            return Err(e);
                        },
                        Ok(v) => {
                            vertices.push(v);
                        },
                    }
                } else if same_text(name, "triangle") && in_triangles {
                    match read_triangle_exec(attributes) {
                        Err(e) => {
                            proof { lemma_scan_document_error_stays(data, k + 1, data.len() as int, *parse); }
                            assert(data.take(data.len() as int) =~= data);
                            return Err(e);
                        },
                        Ok((a, b, c)) => {
                            let n = vertices.len();
                            if a < n && b < n && c < n {
                                let t = Triangle { normal: [ONE_F32, 0, 0], vertices: [vertices[a], vertices[b], vertices[c]] };
                                tris.push(t);
                                assert(tris@ =~= start + more.push(t));
                            }
                        },
                    }
                }
            },
            XmlEvent::Close { name } => {
                let name = name.as_str();
                if same_text(name, "mesh") {
                    in_mesh = false;
                } else if same_text(name, "vertices") {
                    in_vertices = false;
                } else if same_text(name, "triangles") {
                    in_triangles = false;
                }
            },
            XmlEvent::Other => {},
        }
        k = k + 1;
    }
    assert(data.take(events.len() as int) =~= data);
    Ok(())
}

impl Mesh {
    /// Reads a mesh from the bytes of a 3MF package (a ZIP archive). Every entry
    /// whose name ends in `.model` is scanned as XML: `<vertex>` elements inside
    /// `<vertices>` inside `<mesh>` add vertices to the current mesh (parsed by
    /// `parse_coordinate`), and `<triangle>` elements inside `<triangles>` whose
    /// three corner indices name known vertices add a triangle; other structure
    /// is ignored. All normals are computed. An archive or entry that cannot be
    /// read is `Read`, a bad number ends the reading with its error, and a
    /// package without a triangle is `NoMeshData`.
    pub fn from_3mf_raw<F: Fn(&Triangle) -> Normal, P: Fn(&str) -> Result<u32, String>>(
        archive: &[u8],
        _recalc_normals: bool,
        face_normal: &F,
        parse_coordinate: &P,
    ) -> (r: Result<Mesh, MeshError>)
        requires
            total_on_triangles(*face_normal),
            parses_consistently(*parse_coordinate),
            parses_all(*parse_coordinate),
        ensures
            threemf_raw_outcome(r, archive@, *parse_coordinate, *face_normal),
    {
        let count = match zip_entry_count(archive) {
            Ok(n) => n,
            Err(message) => return Err(MeshError::Read(message)),
        };
        let mut tris: Vec<Triangle> = Vec::new();
        let mut i: usize = 0;
        while i < count
            invariant
                zip_entry_count_of(archive@) == Ok::<nat, Seq<char>>(count as nat),
                parses_consistently(*parse_coordinate),
                parses_all(*parse_coordinate),
                i <= count,
                scan_entries(archive@, i as nat, *parse_coordinate) == Ok::<Result<Seq<Triangle>, MeshError>, Seq<char>>(
                    Ok(tris@),
                ),
            decreases count - i,
        {
            let name = match zip_entry_name(archive, i) {
                Ok(name) => name,
                Err(message) => {
                    proof { lemma_scan_entries_end_stays(archive@, (i + 1) as nat, count as nat, *parse_coordinate); }
                    return Err(MeshError::Read(message));
                },
            };
            proof {
                reveal_strlit(".model");
                assert(".model"@ =~= seq!['.', 'm', 'o', 'd', 'e', 'l']);
            }
            if ends_with_text(name.as_str(), ".model") {
                let data = zip_entry_data(archive, i);
                let events = xml_events(&data);
                match scan_document_exec(&events, parse_coordinate, &mut tris) {
                    Ok(()) => {},
                    Err(e) => {
                        proof { lemma_scan_entries_end_stays(archive@, (i + 1) as nat, count as nat, *parse_coordinate); }
                        return Err(e);
                    },
                }
            }
            i = i + 1;
        }
        if tris.len() == 0 {
            return Err(MeshError::NoMeshData);
        }
        let mut mesh = Mesh::starting_at(&tris[0].vertices[0], false);
        mesh.add_triangles(&tris, true, face_normal);
        assert(mesh.normals@.skip(0) =~= mesh.normals@);
        Ok(mesh)
    }
}

/// The narrowing gives one result for each bit pattern.
pub open spec fn narrows_consistently<N: Fn(u64) -> u32>(narrow: N) -> bool {
    forall|b: u64, r1: u32, r2: u32| #[trigger] narrow.ensures((b,), r1) && #[trigger] narrow.ensures((b,), r2) ==> r1 == r2
}

/// The narrowing accepts every bit pattern.
pub open spec fn narrows_all<N: Fn(u64) -> u32>(narrow: N) -> bool {
    forall|b: u64| #[trigger] narrow.requires((b,))
}

/// What the narrowing gives for `b`.
pub open spec fn narrowed<N: Fn(u64) -> u32>(narrow: N, b: u64) -> u32 {
    choose|r: u32| #[trigger] narrow.ensures((b,), r)
}

proof fn lemma_narrowed<N: Fn(u64) -> u32>(narrow: N, b: u64, r: u32)
    requires
        narrows_consistently(narrow),
        narrow.ensures((b,), r),
    ensures
        narrowed(narrow, b) == r,
{
    let c = choose|c: u32| #[trigger] narrow.ensures((b,), c);
    assert(narrow.ensures((b,), c));
}

/// A 3MF vertex with each coordinate narrowed.
pub open spec fn narrowed_point<N: Fn(u64) -> u32>(narrow: N, v: [u64; 3]) -> [u32; 3] {
    [narrowed(narrow, v[0]), narrowed(narrow, v[1]), narrowed(narrow, v[2])]
}

/// Every triangle of a 3MF mesh names vertices the mesh has.
pub open spec fn threemf_mesh_indexable(m: ThreeMfMeshData) -> bool {
    forall|t: int, c: int| 0 <= t < m.1.len() && 0 <= c < 3 ==> #[trigger] m.1[t][c] < m.0.len()
}

/// An object's mesh, if it has one, is indexable.
pub open spec fn threemf_object_indexable(o: Option<ThreeMfMeshData>) -> bool {
    match o {
        Some(m) => threemf_mesh_indexable(m),
        None => true,
    }
}

/// Every mesh of every model is indexable.
pub open spec fn threemf_indexable(models: Seq<Seq<Option<ThreeMfMeshData>>>) -> bool {
    forall|i: int, j: int| 0 <= i < models.len() && 0 <= j < models[i].len() ==> threemf_object_indexable(#[trigger] models[i][j])
}

/// Triangle `t` of a 3MF mesh: its corners narrowed, `(1, 0, 0)` as its stored normal.
pub open spec fn threemf_triangle<N: Fn(u64) -> u32>(m: ThreeMfMeshData, t: int, narrow: N) -> Triangle {
    Triangle {
        normal: [ONE_F32, 0, 0],
        vertices: [
            narrowed_point(narrow, m.0[m.1[t][0] as int]),
            narrowed_point(narrow, m.0[m.1[t][1] as int]),
            narrowed_point(narrow, m.0[m.1[t][2] as int]),
        ],
    }
}

/// The triangles of a 3MF mesh.
pub open spec fn threemf_mesh_triangles<N: Fn(u64) -> u32>(m: ThreeMfMeshData, narrow: N) -> Seq<Triangle> {
    Seq::new(m.1.len(), |t: int| threemf_triangle(m, t, narrow))
}

/// The triangles of the meshes of a model's objects, in order.
pub open spec fn object_triangles<N: Fn(u64) -> u32>(objects: Seq<Option<ThreeMfMeshData>>, narrow: N) -> Seq<Triangle>
    decreases objects.len(),
{
    if objects.len() == 0 {
        Seq::empty()
    } else {
        object_triangles(objects.drop_last(), narrow) + match objects.last() {
            Some(m) => threemf_mesh_triangles(m, narrow),
            None => Seq::empty(),
        }
    }
}

/// The triangles of all models, in order.
pub open spec fn threemf_triangles<N: Fn(u64) -> u32>(models: Seq<Seq<Option<ThreeMfMeshData>>>, narrow: N) -> Seq<Triangle>
    decreases models.len(),
{
    if models.len() == 0 {
        Seq::empty()
    } else {
        threemf_triangles(models.drop_last(), narrow) + object_triangles(models.last(), narrow)
    }
}

fn narrow_point<N: Fn(u64) -> u32>(v: &[u64; 3], narrow: &N) -> (p: [u32; 3])
    requires
        narrows_all(*narrow),
        narrows_consistently(*narrow),
    ensures
        p == narrowed_point(*narrow, *v),
{
    let x = narrow(v[0]);
    let y = narrow(v[1]);
    let z = narrow(v[2]);
    proof {
        lemma_narrowed(*narrow, v[0], x);
        lemma_narrowed(*narrow, v[1], y);
        lemma_narrowed(*narrow, v[2], z);
    }
    let p = [x, y, z];
    assert(p =~= narrowed_point(*narrow, *v));
    p
}

/// Whether every triangle of the mesh names vertices the mesh has.
fn mesh_indices_in_range(mesh: &ThreeMfMesh) -> (b: bool)
    ensures
        b == threemf_mesh_indexable(mesh@),
{
    let n = mesh.vertices.len();
    let mut t: usize = 0;
    while t < mesh.triangles.len()
        invariant
            n == mesh.vertices@.len(),
            t <= mesh.triangles@.len(),
            forall|u: int, c: int| 0 <= u < t && 0 <= c < 3 ==> #[trigger] mesh.triangles@[u][c] < n,
        decreases mesh.triangles.len() - t,
    {
        let tri = mesh.triangles[t];
        if tri[0] >= n || tri[1] >= n || tri[2] >= n {
            assert(!(mesh@.1[t as int][0] < mesh@.0.len() && mesh@.1[t as int][1] < mesh@.0.len() && mesh@.1[t as int][2]
                < mesh@.0.len()));
            return false;
        }
        assert forall|u: int, c: int| 0 <= u < t + 1 && 0 <= c < 3 implies #[trigger] mesh.triangles@[u][c] < n by {
            if u == t {
                assert(mesh.triangles@[u] == tri);
                assert(c == 0 || c == 1 || c == 2);
            }
        }
        t = t + 1;
    }
    true
}

/// Whether every mesh of every model is indexable.
fn indices_in_range(models: &Vec<ThreeMfModel>) -> (b: bool)
    ensures
        b == threemf_indexable(threemf_data(models@)),
{
    let ghost ms = threemf_data(models@);
    let mut i: usize = 0;
    while i < models.len()
        invariant
            ms == threemf_data(models@),
            i <= models.len(),
            forall|a: int, j: int| 0 <= a < i && 0 <= j < ms[a].len() ==> threemf_object_indexable(#[trigger] ms[a][j]),
        decreases models.len() - i,
    {
        let objects = &models[i].objects;
        assert(ms[i as int] == crate::readers::threemf_objects(objects@));
        let mut j: usize = 0;
        while j < objects.len()
            invariant
                ms == threemf_data(models@),
                i < models.len(),
                objects == &models@[i as int].objects,
                ms[i as int] == crate::readers::threemf_objects(objects@),
                j <= objects.len(),
                forall|a: int, k: int| 0 <= a < i && 0 <= k < ms[a].len() ==> threemf_object_indexable(#[trigger] ms[a][k]),
                forall|k: int| 0 <= k < j ==> threemf_object_indexable(#[trigger] ms[i as int][k]),
            decreases objects.len() - j,
        {
            match &objects[j] {
                Some(mesh) => {
                    if !mesh_indices_in_range(mesh) {
                        assert(!threemf_object_indexable(ms[i as int][j as int]));
                        return false;
                    }
                },
                None => {},
            }
            j = j + 1;
        }
        i = i + 1;
    }
    true
}

/// Appends the triangles of an indexable mesh.
fn push_mesh_triangles<N: Fn(u64) -> u32>(tris: &mut Vec<Triangle>, mesh: &ThreeMfMesh, narrow: &N)
    requires
        narrows_all(*narrow),
        narrows_consistently(*narrow),
        threemf_mesh_indexable(mesh@),
    ensures
        final(tris)@ == old(tris)@ + threemf_mesh_triangles(mesh@, *narrow),
{
    let ghost start = tris@;
    let ghost want = threemf_mesh_triangles(mesh@, *narrow);
    let mut t: usize = 0;
    while t < mesh.triangles.len()
        invariant
            narrows_all(*narrow),
            narrows_consistently(*narrow),
            threemf_mesh_indexable(mesh@),
            want == threemf_mesh_triangles(mesh@, *narrow),
            t <= mesh.triangles@.len(),
            tris@ == start + want.take(t as int),
        decreases mesh.triangles.len() - t,
    {
        let c = mesh.triangles[t];
        assert(c[0] < mesh.vertices@.len() && c[1] < mesh.vertices@.len() && c[2] < mesh.vertices@.len()) by {
            assert(mesh@.1[t as int][0] < mesh@.0.len());
            assert(mesh@.1[t as int][1] < mesh@.0.len());
            assert(mesh@.1[t as int][2] < mesh@.0.len());
        }
        let a = narrow_point(&mesh.vertices[c[0]], narrow);
        let b = narrow_point(&mesh.vertices[c[1]], narrow);
        let d = narrow_point(&mesh.vertices[c[2]], narrow);
        let tri = Triangle { normal: [ONE_F32, 0, 0], vertices: [a, b, d] };
        assert(tri.vertices =~= want[t as int].vertices);
        assert(tri.normal =~= want[t as int].normal);
        tris.push(tri);
        assert(want.take(t + 1) =~= want.take(t as int).push(tri));
        t = t + 1;
    }
    assert(want.take(mesh.triangles@.len() as int) =~= want);
}

/// The triangles of 3MF models whose meshes are all indexable: every triangle
/// of every object's mesh, in order, with its corners narrowed to `f32` bit
/// patterns by `narrow`.
pub fn threemf_triangle_list<N: Fn(u64) -> u32>(models: &Vec<ThreeMfModel>, narrow: &N) -> (tris: Vec<Triangle>)
    requires
        narrows_all(*narrow),
        narrows_consistently(*narrow),
        threemf_indexable(threemf_data(models@)),
    ensures
        tris@ == threemf_triangles(threemf_data(models@), *narrow),
{
    let ghost ms = threemf_data(models@);
    let mut tris: Vec<Triangle> = Vec::new();
    let mut i: usize = 0;
    assert(ms.take(0) =~= Seq::<Seq<Option<ThreeMfMeshData>>>::empty());
    while i < models.len()
        invariant
            narrows_all(*narrow),
            narrows_consistently(*narrow),
            ms == threemf_data(models@),
            threemf_indexable(ms),
            i <= models.len(),
            tris@ == threemf_triangles(ms.take(i as int), *narrow),
        decreases models.len() - i,
    {
        let objects = &models[i].objects;
        let ghost os = ms[i as int];
        let ghost before = tris@;
        assert(os == crate::readers::threemf_objects(objects@));
        let mut j: usize = 0;
        assert(os.take(0) =~= Seq::<Option<ThreeMfMeshData>>::empty());
        while j < objects.len()
            invariant
                narrows_all(*narrow),
                narrows_consistently(*narrow),
                ms == threemf_data(models@),
                threemf_indexable(ms),
                i < models.len(),
                objects == &models@[i as int].objects,
                os == ms[i as int],
                os == crate::readers::threemf_objects(objects@),
                j <= objects.len(),
                tris@ == before + object_triangles(os.take(j as int), *narrow),
            decreases objects.len() - j,
        {
            let ghost mid = tris@;
            assert(os.take(j + 1).drop_last() =~= os.take(j as int));
            assert(os.take(j + 1).last() == os[j as int]);
            match &objects[j] {
                Some(mesh) => {
                    assert(os[j as int] == Some(mesh@));
                    assert(threemf_object_indexable(ms[i as int][j as int]));
                    push_mesh_triangles(&mut tris, mesh, narrow);
                    assert(tris@ =~= before + object_triangles(os.take(j + 1), *narrow));
                },
                None => {
                    assert(os[j as int] == None::<ThreeMfMeshData>);
                    assert(object_triangles(os.take(j + 1), *narrow) =~= object_triangles(os.take(j as int), *narrow));
                },
            }
            j = j + 1;
        }
        assert(os.take(objects.len() as int) =~= os);
        assert(ms.take(i + 1).drop_last() =~= ms.take(i as int));
        assert(ms.take(i + 1).last() == os);
        i = i + 1;
    }
    assert(ms.take(models.len() as int) =~= ms);
    tris
}

impl Mesh {
    /// Builds the mesh of the models that the `threemf` crate read: every
    /// triangle of every object's mesh, in order, corners narrowed by `narrow`,
    /// each with a computed face normal. A triangle naming a vertex its mesh does
    /// not have is `BadTriangleIndex`; no triangles at all is `NoMeshData`.
    pub fn from_3mf_models<F: Fn(&Triangle) -> Normal, N: Fn(u64) -> u32>(
        models: &Vec<ThreeMfModel>,
        face_normal: &F,
        narrow: &N,
    ) -> (r: Result<Mesh, MeshError>)
        requires
            total_on_triangles(*face_normal),
            narrows_all(*narrow),
            narrows_consistently(*narrow),
        ensures
            ({
                let ms = threemf_data(models@);
                let tris = threemf_triangles(ms, *narrow);
                &&& !threemf_indexable(ms) ==> (r matches Err(MeshError::BadTriangleIndex))
                &&& threemf_indexable(ms) && tris.len() == 0 ==> (r matches Err(MeshError::NoMeshData))
                &&& threemf_indexable(ms) && tris.len() > 0 ==> (r matches Ok(m) && built_from_triangles(m, tris, true, *face_normal))
            }),
    {
        if !indices_in_range(models) {
            return Err(MeshError::BadTriangleIndex);
        }
        let tris = threemf_triangle_list(models, narrow);
        if tris.len() == 0 {
            return Err(MeshError::NoMeshData);
        }
        let mut mesh = Mesh::starting_at(&tris[0].vertices[0], true);
        mesh.add_triangles(&tris, true, face_normal);
        assert(mesh.normals@.skip(0) =~= mesh.normals@);
        Ok(mesh)
    }

    /// Reads a mesh from the bytes of a 3MF package with the `threemf` crate (see
    /// `from_3mf_models`); a failure of that reader is `Read`. Every normal is
    /// computed, whatever `_recalc_normals` says.
    pub fn from_3mf<F: Fn(&Triangle) -> Normal, N: Fn(u64) -> u32>(
        bytes: &[u8],
        _recalc_normals: bool,
        face_normal: &F,
        narrow: &N,
    ) -> (r: Result<Mesh, MeshError>)
        requires
            total_on_triangles(*face_normal),
            narrows_all(*narrow),
            narrows_consistently(*narrow),
        ensures
            match threemf_models_of(bytes@) {
                Err(m) => is_read_error(r, m),
                Ok(ms) => {
                    let tris = threemf_triangles(ms, *narrow);
                    &&& !threemf_indexable(ms) ==> (r matches Err(MeshError::BadTriangleIndex))
                    &&& threemf_indexable(ms) && tris.len() == 0 ==> (r matches Err(MeshError::NoMeshData))
                    &&& threemf_indexable(ms) && tris.len() > 0 ==> (r matches Ok(m) && built_from_triangles(m, tris, true, *face_normal))
                },
            },
    {
        match read_3mf(bytes) {
            Err(message) => Err(MeshError::Read(message)),
            Ok(models) => Mesh::from_3mf_models(&models, face_normal, narrow),
        }
    }
}

/// The tolerant 3MF reading ignores whether recalculation of normals is asked
/// for (every normal is computed): any two results of `from_3mf_raw` on the same
/// package say the same, when the face normal is one per triangle.
pub proof fn lemma_threemf_raw_ignores_recalc<F: Fn(&Triangle) -> Normal, P: Fn(&str) -> Result<u32, String>>(
    a: Result<Mesh, MeshError>,
    b: Result<Mesh, MeshError>,
    archive: Seq<u8>,
    parse: P,
    face_normal: F,
)
    requires
        threemf_raw_outcome(a, archive, parse, face_normal),
        threemf_raw_outcome(b, archive, parse, face_normal),
        deterministic_normals(face_normal),
    ensures
        same_result(a, b),
{
    match scan_archive(archive, parse) {
        Err(m) => {},
        Ok(Err(e)) => {},
        Ok(Ok(tris)) => {
            if tris.len() > 0 {
                let ma = a->Ok_0;
                let mb = b->Ok_0;
                lemma_built_from_triangles_unique(ma, mb, tris, true, face_normal);
            }
        },
    }
}

/// When a `<mesh>` element starts, the scan holds no vertices: vertices of an
/// earlier mesh are never named by the triangles of a later one.
pub proof fn lemma_mesh_start_empties_vertices<P: Fn(&str) -> Result<u32, String>>(
    evs: Seq<XmlEventData>,
    k: int,
    parse: P,
)
    requires
        0 <= k < evs.len(),
        evs[k] matches XmlEventData::Open { name, .. } && name == name_mesh(),
        scan_document(evs.take(k + 1), parse) is Ok,
    ensures
        scan_document(evs.take(k + 1), parse)->Ok_0.0.vertices.len() == 0,
        scan_document(evs.take(k + 1), parse)->Ok_0.0.in_mesh,
{
    let prefix = evs.take(k + 1);
    assert(prefix.drop_last() =~= evs.take(k));
    assert(prefix.last() == evs[k]);
}

/// The triangles of one object: those of its mesh, none when it has no mesh.
pub open spec fn object_mesh_triangles<N: Fn(u64) -> u32>(o: Option<ThreeMfMeshData>, narrow: N) -> Seq<Triangle> {
    match o {
        Some(m) => threemf_mesh_triangles(m, narrow),
        None => Seq::empty(),
    }
}

/// The number of triangles of the objects' meshes.
pub open spec fn object_triangle_count(objects: Seq<Option<ThreeMfMeshData>>) -> nat
    decreases objects.len(),
{
    if objects.len() == 0 {
        0
    } else {
        object_triangle_count(objects.drop_last()) + match objects.last() {
            Some(m) => m.1.len(),
            None => 0,
        }
    }
}

/// The number of triangles of all meshes of all models.
pub open spec fn threemf_triangle_count(models: Seq<Seq<Option<ThreeMfMeshData>>>) -> nat
    decreases models.len(),
{
    if models.len() == 0 {
        0
    } else {
        threemf_triangle_count(models.drop_last()) + object_triangle_count(models.last())
    }
}

/// The triangles of a model's objects are the concatenation, object after
/// object, of each object's mesh triangles.
pub proof fn lemma_object_triangles_concatenate<N: Fn(u64) -> u32>(objects: Seq<Option<ThreeMfMeshData>>, narrow: N)
    ensures
        object_triangles(objects, narrow) == objects.map_values(
            |o: Option<ThreeMfMeshData>| object_mesh_triangles(o, narrow),
        ).flatten(),
        object_triangles(objects, narrow).len() == object_triangle_count(objects),
    decreases objects.len(),
{
    let per = objects.map_values(|o: Option<ThreeMfMeshData>| object_mesh_triangles(o, narrow));
    per.lemma_flatten_and_flatten_alt_are_equivalent();
    if objects.len() > 0 {
        lemma_object_triangles_concatenate(objects.drop_last(), narrow);
        let rest = objects.drop_last().map_values(|o: Option<ThreeMfMeshData>| object_mesh_triangles(o, narrow));
        assert(per.drop_last() =~= rest);
        rest.lemma_flatten_and_flatten_alt_are_equivalent();
        assert(per.last() == object_mesh_triangles(objects.last(), narrow));
    } else {
        assert(per.flatten_alt() =~= Seq::<Triangle>::empty());
    }
}

/// The triangles of 3MF models combine every object of every model: the
/// concatenation, model after model and object after object, of each mesh's
/// triangles, as many as all meshes have together.
pub proof fn lemma_threemf_triangles_concatenate<N: Fn(u64) -> u32>(models: Seq<Seq<Option<ThreeMfMeshData>>>, narrow: N)
    ensures
        threemf_triangles(models, narrow) == models.map_values(
            |os: Seq<Option<ThreeMfMeshData>>| os.map_values(|o: Option<ThreeMfMeshData>| object_mesh_triangles(o, narrow)).flatten(),
        ).flatten(),
        threemf_triangles(models, narrow).len() == threemf_triangle_count(models),
    decreases models.len(),
{
    let f = |os: Seq<Option<ThreeMfMeshData>>| os.map_values(|o: Option<ThreeMfMeshData>| object_mesh_triangles(o, narrow)).flatten();
    let per = models.map_values(f);
    per.lemma_flatten_and_flatten_alt_are_equivalent();
    if models.len() > 0 {
        lemma_threemf_triangles_concatenate(models.drop_last(), narrow);
        lemma_object_triangles_concatenate(models.last(), narrow);
        let rest = models.drop_last().map_values(f);
        assert(per.drop_last() =~= rest);
        rest.lemma_flatten_and_flatten_alt_are_equivalent();
        assert(per.last() == f(models.last()));
    } else {
        assert(per.flatten_alt() =~= Seq::<Triangle>::empty());
    }
}

} // verus!
