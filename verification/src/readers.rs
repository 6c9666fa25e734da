//! The model-file parsers of other crates, called on in-memory file contents.
//! Their results are named (they depend on the bytes alone) and converted to
//! plain values: `f32` coordinates become their bit patterns.
use vstd::prelude::*;
use crate::mesh::Triangle;
use quick_xml::events::Event;

verus! {

/// What `stl_io` reads from an STL file: the message of the failure to create a
/// triangle reader for it, or the triangles the reader yields before its first
/// error together with the message of that error, if it stopped at one.
pub uninterp spec fn stl_read_of(bytes: Seq<u8>) -> Result<(Seq<Triangle>, Option<Seq<char>>), Seq<char>>;

/// The text of an optional message.
pub open spec fn message_text(m: Option<String>) -> Option<Seq<char>> {
    match m {
        Some(s) => Some(s@),
        None => None,
    }
}

/// Reads an STL file (ASCII or binary) with `stl_io::create_stl_reader` and
/// collects the triangles it yields up to its first error. `Err` carries the
/// message of a failure to create the reader; `Ok` carries the triangles and the
/// message of the error that ended reading, if one did (messages are the
/// errors' `Display` texts). The contract names the outcome by `stl_read_of`.
#[verifier::external_body]
pub(crate) fn read_stl(bytes: &[u8]) -> (r: Result<(Vec<Triangle>, Option<String>), String>)
    ensures
        stl_read_of(bytes@) == match r {
            Err(m) => Err(m@),
            Ok((tris, err)) => Ok((tris@, message_text(err))),
        },
{
    let mut cursor = std::io::Cursor::new(bytes);
    let reader = stl_io::create_stl_reader(&mut cursor).map_err(|e| e.to_string())?;
    let mut triangles = Vec::new();
    for t in reader {
        match t {
            Ok(t) => triangles.push(Triangle {
                normal: t.normal.0.map(|c| c.to_bits()),
                vertices: t.vertices.map(|v| v.0.map(|c| c.to_bits())),
            }),
            Err(e) => return Ok((triangles, Some(e.to_string()))),
        }
    }
    Ok((triangles, None))
}

/// One model of an OBJ file: flat `x, y, z` position coordinates and normal
/// components (bit patterns of `f32`), and corner indices, three per triangle.
#[derive(Clone, Debug)]
pub struct ObjModel {
    pub positions: Vec<u32>,
    pub normals: Vec<u32>,
    pub indices: Vec<u32>,
}

impl View for ObjModel {
    /// Positions, normals and indices.
    type V = (Seq<u32>, Seq<u32>, Seq<u32>);

    open spec fn view(&self) -> (Seq<u32>, Seq<u32>, Seq<u32>) {
        (self.positions@, self.normals@, self.indices@)
    }
}

/// The data of each model.
pub open spec fn obj_data(models: Seq<ObjModel>) -> Seq<(Seq<u32>, Seq<u32>, Seq<u32>)> {
    models.map_values(|m: ObjModel| m@)
}

/// The models that `tobj` reads from an OBJ file (positions, normals and indices
/// of each), or the message of the error it reports.
pub uninterp spec fn obj_models_of(bytes: Seq<u8>) -> Result<Seq<(Seq<u32>, Seq<u32>, Seq<u32>)>, Seq<char>>;

/// Reads an OBJ file with `tobj::load_obj_buf`, with one index per corner and
/// faces triangulated, and without material libraries (the material loader
/// answers every request with no materials). `Err` carries `tobj`'s message. The
/// contract names the models by `obj_models_of`.
#[verifier::external_body]
pub(crate) fn load_obj(bytes: &[u8]) -> (r: Result<Vec<ObjModel>, String>)
    ensures
        match r {
            Ok(models) => obj_models_of(bytes@) == Ok::<Seq<(Seq<u32>, Seq<u32>, Seq<u32>)>, Seq<char>>(obj_data(models@)),
            Err(m) => obj_models_of(bytes@) == Err::<Seq<(Seq<u32>, Seq<u32>, Seq<u32>)>, Seq<char>>(m@),
        },
{
    let options = tobj::LoadOptions { single_index: true, triangulate: true, ..tobj::LoadOptions::default() };
    let mut reader = std::io::Cursor::new(bytes);
    let (models, _) = tobj::load_obj_buf(&mut reader, &options, |_| Ok(Default::default())).map_err(|e| e.to_string())?;
    Ok(models.into_iter().map(|m| ObjModel {
        positions: m.mesh.positions.iter().map(|c| c.to_bits()).collect(),
        normals: m.mesh.normals.iter().map(|c| c.to_bits()).collect(),
        indices: m.mesh.indices,
    }).collect())
}

/// The number of entries that the `zip` crate finds in an archive, or the
/// message of its failure to open it.
pub uninterp spec fn zip_entry_count_of(archive: Seq<u8>) -> Result<nat, Seq<char>>;

/// The name of entry `index` of an archive as the `zip` crate gives it, or the
/// message of its failure to provide the entry or its name.
pub uninterp spec fn zip_entry_name_of(archive: Seq<u8>, index: nat) -> Result<Seq<char>, Seq<char>>;

/// The decompressed bytes of entry `index` that the `zip` crate delivers before
/// the end of the entry or its first read error.
pub uninterp spec fn zip_entry_data_of(archive: Seq<u8>, index: nat) -> Seq<u8>;

/// Opens a ZIP archive with `zip::ZipArchive::new` and returns its number of
/// entries (`ZipArchive::len`); `Err` carries the crate's message. The contract
/// names the outcome by `zip_entry_count_of`.
#[verifier::external_body]
pub(crate) fn zip_entry_count(archive: &[u8]) -> (r: Result<usize, String>)
    ensures
        match r {
            Ok(n) => zip_entry_count_of(archive@) == Ok::<nat, Seq<char>>(n as nat),
            Err(m) => zip_entry_count_of(archive@) == Err::<nat, Seq<char>>(m@),
        },
{
    zip::ZipArchive::new(std::io::Cursor::new(archive)).map(|z| z.len()).map_err(|e| e.to_string())
}

/// The name of entry `index` (`ZipArchive::by_index`, then `ZipFile::name`);
/// `Err` carries the crate's message. The contract names the outcome by
/// `zip_entry_name_of`.
#[verifier::external_body]
pub(crate) fn zip_entry_name(archive: &[u8], index: usize) -> (r: Result<String, String>)
    ensures
        match r {
            Ok(name) => zip_entry_name_of(archive@, index as nat) == Ok::<Seq<char>, Seq<char>>(name@),
            Err(m) => zip_entry_name_of(archive@, index as nat) == Err::<Seq<char>, Seq<char>>(m@),
        },
{
    let mut zip = zip::ZipArchive::new(std::io::Cursor::new(archive)).map_err(|e| e.to_string())?;
    let file = zip.by_index(index).map_err(|e| e.to_string())?;
    file.name().map(|name| name.into_owned()).map_err(|e| e.to_string())
}

/// The contents of entry `index`, read with `Read::read_to_end`, which keeps the
/// bytes read before an error; nothing when the entry cannot be opened. The
/// contract names the bytes by `zip_entry_data_of`.
#[verifier::external_body]
pub(crate) fn zip_entry_data(archive: &[u8], index: usize) -> (data: Vec<u8>)
    ensures
        data@ == zip_entry_data_of(archive@, index as nat),
{
    let mut data = Vec::new();
    if let Ok(mut zip) = zip::ZipArchive::new(std::io::Cursor::new(archive)) {
        if let Ok(mut file) = zip.by_index(index) {
            let _ = std::io::Read::read_to_end(&mut file, &mut data);
        }
    }
    data
}

/// An attribute of an XML element: the local part of its name and its value text.
#[derive(Clone, Debug)]
pub struct XmlAttribute {
    pub key: String,
    pub value: String,
}

/// An XML event that the 3MF reader distinguishes: the start of an element (or an
/// empty element) with its local name and attributes, the end of an element with
/// its local name, or anything else.
#[derive(Clone, Debug)]
pub enum XmlEvent {
    Open { name: String, attributes: Vec<XmlAttribute> },
    Close { name: String },
    Other,
}

/// The content of an `XmlEvent`.
pub enum XmlEventData {
    Open { name: Seq<char>, attributes: Seq<(Seq<char>, Seq<char>)> },
    Close { name: Seq<char> },
    Other,
}

/// The keys and values of attributes.
pub open spec fn attribute_data(attributes: Seq<XmlAttribute>) -> Seq<(Seq<char>, Seq<char>)> {
    attributes.map_values(|a: XmlAttribute| (a.key@, a.value@))
}

impl View for XmlEvent {
    type V = XmlEventData;

    open spec fn view(&self) -> XmlEventData {
        match self {
            XmlEvent::Open { name, attributes } => XmlEventData::Open { name: name@, attributes: attribute_data(attributes@) },
            XmlEvent::Close { name } => XmlEventData::Close { name: name@ },
            XmlEvent::Other => XmlEventData::Other,
        }
    }
}

/// The contents of a list of events.
pub open spec fn event_data(events: Seq<XmlEvent>) -> Seq<XmlEventData> {
    events.map_values(|e: XmlEvent| e@)
}

/// The events that `quick_xml` reads from a document, up to its end or its first error.
pub uninterp spec fn xml_events_of(document: Seq<u8>) -> Seq<XmlEventData>;

/// Reads the events of an XML document with `quick_xml::Reader::read_event` until
/// the end of the input or the first error. Start and empty-element tags become
/// `Open` with the local name and the attributes that parse (`flatten` drops the
/// others); end tags become `Close`. The contract names the events by `xml_events_of`.
#[verifier::external_body]
pub(crate) fn xml_events(document: &[u8]) -> (events: Vec<XmlEvent>)
    ensures
        event_data(events@) == xml_events_of(document@),
{
    let mut reader = quick_xml::Reader::from_reader(document);
    let mut events = Vec::new();
    loop {
        match reader.read_event() {
            Ok(Event::Start(e)) | Ok(Event::Empty(e)) => events.push(XmlEvent::Open {
                name: e.local_name().as_ref().to_owned(),
                attributes: e.attributes().flatten().map(|a| XmlAttribute { key: a.key.local_name().as_ref().to_owned(), value: a.value.into_owned() }).collect(),
            }),
            Ok(Event::End(e)) => events.push(XmlEvent::Close { name: e.local_name().as_ref().to_owned() }),
            Ok(Event::Eof) | Err(_) => return events,
            Ok(_) => events.push(XmlEvent::Other),
        }
    }
}

/// One mesh of a 3MF object as the `threemf` crate reads it: the vertex
/// coordinates (bit patterns of `f64`) and the triangles as vertex index triples.
#[derive(Clone, Debug)]
pub struct ThreeMfMesh {
    pub vertices: Vec<[u64; 3]>,
    pub triangles: Vec<[usize; 3]>,
}

/// The vertices and triangles of a 3MF mesh.
pub type ThreeMfMeshData = (Seq<[u64; 3]>, Seq<[usize; 3]>);

impl View for ThreeMfMesh {
    type V = ThreeMfMeshData;

    open spec fn view(&self) -> ThreeMfMeshData {
        (self.vertices@, self.triangles@)
    }
}

/// One model of a 3MF package: the mesh of each object, in order (`None` for an
/// object without a mesh).
#[derive(Clone, Debug)]
pub struct ThreeMfModel {
    pub objects: Vec<Option<ThreeMfMesh>>,
}

/// The meshes of a model's objects.
pub open spec fn threemf_objects(objects: Seq<Option<ThreeMfMesh>>) -> Seq<Option<ThreeMfMeshData>> {
    objects.map_values(|o: Option<ThreeMfMesh>| match o {
        Some(m) => Some(m@),
        None => None,
    })
}

/// The meshes of each model's objects.
pub open spec fn threemf_data(models: Seq<ThreeMfModel>) -> Seq<Seq<Option<ThreeMfMeshData>>> {
    models.map_values(|m: ThreeMfModel| threemf_objects(m.objects@))
}

/// The models that `threemf::read` reads from a 3MF package (the meshes of the
/// objects of each model part), or the message of the error it reports.
pub uninterp spec fn threemf_models_of(bytes: Seq<u8>) -> Result<Seq<Seq<Option<ThreeMfMeshData>>>, Seq<char>>;

/// Reads a 3MF package with `threemf::read`: every `.model` part of the archive,
/// deserialized in full. Each object's mesh is kept with its coordinates as
/// `f64` bit patterns. `Err` carries the crate's message. The contract names the
/// models by `threemf_models_of`.
#[verifier::external_body]
pub(crate) fn read_3mf(bytes: &[u8]) -> (r: Result<Vec<ThreeMfModel>, String>)
    ensures
        threemf_models_of(bytes@) == match r {
            Ok(models) => Ok(threemf_data(models@)),
            Err(m) => Err(m@),
        },
{
    let models = threemf::read(std::io::Cursor::new(bytes)).map_err(|e| e.to_string())?;
    Ok(models.into_iter().map(|model| ThreeMfModel {
        objects: model.resources.object.into_iter().map(|object| object.mesh.map(|mesh| ThreeMfMesh {
            vertices: mesh.vertices.vertex.iter().map(|v| [v.x.to_bits(), v.y.to_bits(), v.z.to_bits()]).collect(),
            triangles: mesh.triangles.triangle.iter().map(|t| [t.v1, t.v2, t.v3]).collect(),
        })).collect(),
    }).collect())
}

} // verus!
