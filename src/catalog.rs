//! The download catalog: extracting `products.xml` from the catalog cabinet,
//! projecting its `<File>` nodes into [`FileInfo`] records, and picking the one
//! record that a configuration selects.
use vstd::prelude::*;
use vstd::string::StringExecFns;
use vstd::string::StrSliceExecFns;
use vstd::utf8::{decode_utf8, valid_utf8};
use crate::cabinet::{cab_layout_ok, cab_layout_spec};
use crate::config::Config;
use crate::text::{
    eq_ignore_ascii_case, eq_ignore_ascii_case_spec, find_first, find_first_of, find_last,
    find_last_of, is_either, parse_u64, parse_u64_spec,
};

verus! {

/// One downloadable file of the catalog.
#[derive(Debug)]
pub struct FileInfo {
    pub file_name: String,
    pub language_code: String,
    pub language: String,
    pub edition: String,
    pub architecture: String,
    pub size: u64,
    pub sha1: String,
    pub file_path: String,
}

/// Why the catalog could not be read.
#[derive(Debug)]
pub enum CatalogError {
    /// The cabinet could not be read, or holds no member of the requested name.
    Archive,
    /// `products.xml` is not UTF-8.
    Encoding,
    /// `products.xml` is not well-formed XML.
    Xml(roxmltree::Error),
    /// A download URL has no file name.
    NoFilename,
}

/// Why no single catalog entry was selected.
#[derive(Debug, Clone, Copy, PartialEq, Eq, Structural)]
pub enum ResolveError {
    NoMatch,
    Ambiguous,
}

#[verifier::external_type_specification]
#[verifier::external_body]
pub struct ExXmlError(roxmltree::Error);

/// A child node of an XML node: its tag name (empty where it is no element) and
/// its text.
#[derive(Debug)]
pub struct XmlChild {
    pub tag: String,
    pub text: Option<String>,
}

/// An XML node, with its tag name (empty where it is no element) and its children.
#[derive(Debug)]
pub struct XmlNode {
    pub tag: String,
    pub children: Vec<XmlChild>,
}

pub open spec fn opt_view(t: Option<String>) -> Option<Seq<char>> {
    match t {
        Some(s) => Some(s@),
        None => None,
    }
}

pub open spec fn child_view(c: XmlChild) -> (Seq<char>, Option<Seq<char>>) {
    (c.tag@, opt_view(c.text))
}

pub open spec fn node_view(n: XmlNode) -> (Seq<char>, Seq<(Seq<char>, Option<Seq<char>>)>) {
    (n.tag@, n.children@.map_values(|c: XmlChild| child_view(c)))
}

pub open spec fn nodes_view(v: Seq<XmlNode>) -> Seq<(Seq<char>, Seq<(Seq<char>, Option<Seq<char>>)>)> {
    v.map_values(|n: XmlNode| node_view(n))
}

/// The nodes of an XML text in document order, each with its tag name and its
/// children's tag names and texts; `None` where the text is not well-formed.
pub uninterp spec fn xml_nodes(text: Seq<char>) -> Option<Seq<(Seq<char>, Seq<(Seq<char>, Option<Seq<char>>)>)>>;

/// Relies on roxmltree::Document::parse, walked with `descendants` and `children`:
/// the nodes in document order with their tag names and texts.
#[verifier::external_body]
fn parse_xml(text: &str) -> (r: Result<Vec<XmlNode>, roxmltree::Error>)
    ensures
        match r {
            Ok(v) => xml_nodes(text@) == Some(nodes_view(v@)),
            Err(_) => xml_nodes(text@) is None,
        },
{
    let doc = roxmltree::Document::parse(text)?;
    Ok(doc.descendants().map(|n| XmlNode {
        tag: n.tag_name().name().to_string(),
        children: n.children().map(|c| XmlChild {
            tag: c.tag_name().name().to_string(),
            text: c.text().map(|t| t.to_string()),
        }).collect(),
    }).collect())
}

/// The member of a cabinet archive of the given name; `None` where the archive or
/// the member cannot be read.
pub uninterp spec fn cab_member(data: Seq<u8>, name: Seq<char>) -> Option<Seq<u8>>;

/// Relies on cab::Cabinet::new and Cabinet::read_file: the bytes of one member.
/// The archive must pass the layout check: cab's folder reader indexes its data
/// blocks without a bound, and slices an uncompressed block by the file's offset,
/// so an offset that no block reaches would panic there.
#[verifier::external_body]
fn cab_read_file(data: &[u8], name: &str) -> (r: Option<Vec<u8>>)
    requires
        cab_layout_spec(data@),
    ensures
        match r {
            Some(v) => cab_member(data@, name@) == Some(v@),
            None => cab_member(data@, name@) is None,
        },
{
    let mut cabinet = cab::Cabinet::new(std::io::Cursor::new(data)).ok()?;
    let mut reader = cabinet.read_file(name).ok()?;
    let mut buffer = Vec::new();
    std::io::Read::read_to_end(&mut reader, &mut buffer).ok()?;
    Some(buffer)
}

/// Relies on String::from_utf8: decodes exactly the valid UTF-8 byte strings.
#[verifier::external_body]
fn string_from_utf8(bytes: Vec<u8>) -> (r: Option<String>)
    ensures
        r is Some <==> valid_utf8(bytes@),
        r matches Some(s) ==> s@ == decode_utf8(bytes@),
{
    String::from_utf8(bytes).ok()
}

/// The member of a cabinet archive that is extracted: none where the archive
/// fails the layout check.
pub open spec fn cab_extract_spec(data: Seq<u8>, name: Seq<char>) -> Option<Seq<u8>> {
    if cab_layout_spec(data) {
        cab_member(data, name)
    } else {
        None
    }
}

/// Extracts one member of a cabinet archive.
pub fn extract_cab_file(data: &[u8], filename: &str) -> (r: Result<Vec<u8>, CatalogError>)
    ensures
        match r {
            Ok(v) => cab_extract_spec(data@, filename@) == Some(v@),
            Err(e) => cab_extract_spec(data@, filename@) is None && e is Archive,
        },
{
    if !cab_layout_ok(data) {
        return Err(CatalogError::Archive);
    }
    match cab_read_file(data, filename) {
        Some(v) => Ok(v),
        None => Err(CatalogError::Archive),
    }
}

/// Text of the first child with tag `tag`; empty where there is none or it has
/// no text.
pub open spec fn child_text(children: Seq<(Seq<char>, Option<Seq<char>>)>, tag: Seq<char>) -> Seq<char>
    decreases children.len(),
{
    if children.len() == 0 {
        Seq::empty()
    } else if children[0].0 == tag {
        match children[0].1 {
            Some(t) => t,
            None => Seq::empty(),
        }
    } else {
        child_text(children.drop_first(), tag)
    }
}

/// The children of each `File` node, in document order.
pub open spec fn file_nodes(nodes: Seq<(Seq<char>, Seq<(Seq<char>, Option<Seq<char>>)>)>) -> Seq<Seq<(Seq<char>, Option<Seq<char>>)>>
    decreases nodes.len(),
{
    if nodes.len() == 0 {
        Seq::empty()
    } else {
        let rest = file_nodes(nodes.drop_last());
        if nodes.last().0 == "File"@ {
            rest.push(nodes.last().1)
        } else {
            rest
        }
    }
}

/// A size text as a number; zero where it is none.
pub open spec fn size_or_zero(t: Seq<char>) -> u64 {
    match parse_u64_spec(t) {
        Some(n) => n,
        None => 0,
    }
}

impl FileInfo {
    /// This record is the projection of a `File` node with these children.
    pub open spec fn projects(&self, children: Seq<(Seq<char>, Option<Seq<char>>)>) -> bool {
        &&& self.file_name@ == child_text(children, "FileName"@)
        &&& self.language_code@ == child_text(children, "LanguageCode"@)
        &&& self.language@ == child_text(children, "Language"@)
        &&& self.edition@ == child_text(children, "Edition"@)
        &&& self.architecture@ == child_text(children, "Architecture"@)
        &&& self.size == size_or_zero(child_text(children, "Size"@))
        &&& self.sha1@ == child_text(children, "Sha1"@)
        &&& self.file_path@ == child_text(children, "FilePath"@)
    }

    /// This record is what a configuration asks for: language, edition and
    /// architecture agree up to ASCII case.
    pub open spec fn selected_by(&self, config: &Config) -> bool {
        &&& eq_ignore_ascii_case_spec(self.language_code@, config.lang@)
        &&& eq_ignore_ascii_case_spec(self.edition@, config.edition@)
        &&& eq_ignore_ascii_case_spec(self.architecture@, config.arch.wire_name())
    }
}

fn get_text(children: &Vec<XmlChild>, tag: &String) -> (r: String)
    ensures
        r@ == child_text(children@.map_values(|c: XmlChild| child_view(c)), tag@),
{
    let ghost cv = children@.map_values(|c: XmlChild| child_view(c));
    let mut i: usize = 0;
    assert(cv.subrange(0, cv.len() as int) =~= cv);
    while i < children.len()
        invariant
            i <= children@.len(),
            cv == children@.map_values(|c: XmlChild| child_view(c)),
            child_text(cv, tag@) == child_text(cv.subrange(i as int, cv.len() as int), tag@),
        decreases children@.len() - i,
    {
        let ghost rest = cv.subrange(i as int, cv.len() as int);
        assert(rest[0] == child_view(children@[i as int]));
        if children[i].tag == *tag {
            return match &children[i].text {
                Some(t) => t.clone(),
                None => String::new(),
            };
        }
        assert(rest.drop_first() =~= cv.subrange(i + 1, cv.len() as int));
        i = i + 1;
    }
    String::new()
}

fn project_file(children: &Vec<XmlChild>) -> (r: FileInfo)
    ensures
        r.projects(children@.map_values(|c: XmlChild| child_view(c))),
{
    let size_text = get_text(children, &String::from_str("Size"));
    let size = match parse_u64(size_text.as_str()) {
        Some(n) => n,
        None => 0,
    };
    FileInfo {
        file_name: get_text(children, &String::from_str("FileName")),
        language_code: get_text(children, &String::from_str("LanguageCode")),
        language: get_text(children, &String::from_str("Language")),
        edition: get_text(children, &String::from_str("Edition")),
        architecture: get_text(children, &String::from_str("Architecture")),
        size,
        sha1: get_text(children, &String::from_str("Sha1")),
        file_path: get_text(children, &String::from_str("FilePath")),
    }
}

/// Projects every `File` node into a record, in document order.
pub fn find_files(nodes: &Vec<XmlNode>) -> (r: Vec<FileInfo>)
    ensures
        r@.len() == file_nodes(nodes_view(nodes@)).len(),
        forall|i: int| 0 <= i < r@.len() ==> #[trigger] r@[i].projects(file_nodes(nodes_view(nodes@))[i]),
{
    let ghost nv = nodes_view(nodes@);
    let file_tag = String::from_str("File");
    let mut out: Vec<FileInfo> = Vec::new();
    let mut i: usize = 0;
    while i < nodes.len()
        invariant
            i <= nodes@.len(),
            nv == nodes_view(nodes@),
            file_tag@ == "File"@,
            out@.len() == file_nodes(nv.subrange(0, i as int)).len(),
            forall|j: int| 0 <= j < out@.len() ==> #[trigger] out@[j].projects(file_nodes(nv.subrange(0, i as int))[j]),
        decreases nodes@.len() - i,
    {
        let ghost pre = nv.subrange(0, i as int);
        let ghost next = nv.subrange(0, i + 1);
        assert(next.drop_last() =~= pre);
        assert(next.last() == node_view(nodes@[i as int]));
        if nodes[i].tag == file_tag {
            let f = project_file(&nodes[i].children);
            out.push(f);
        }
        i = i + 1;
    }
    assert(nv.subrange(0, nodes@.len() as int) =~= nv);
    out
}

/// What the catalog lists, read from the catalog cabinet: `None` where it cannot
/// be read.
pub open spec fn catalog_spec(cab: Seq<u8>) -> Option<Seq<Seq<(Seq<char>, Option<Seq<char>>)>>> {
    match cab_extract_spec(cab, "products.xml"@) {
        None => None,
        Some(b) => if !valid_utf8(b) {
            None
        } else {
            match xml_nodes(decode_utf8(b)) {
                None => None,
                Some(nodes) => Some(file_nodes(nodes)),
            }
        },
    }
}

/// Reads the catalog from the cabinet that the catalog endpoint serves.
pub fn catalog_from_cab(data: &[u8]) -> (r: Result<Vec<FileInfo>, CatalogError>)
    ensures
        r is Ok <==> catalog_spec(data@) is Some,
        match r {
            Ok(v) => v@.len() == catalog_spec(data@)->Some_0.len() && forall|i: int|
                0 <= i < v@.len() ==> #[trigger] v@[i].projects(catalog_spec(data@)->Some_0[i]),
            Err(CatalogError::Archive) => cab_extract_spec(data@, "products.xml"@) is None,
            Err(CatalogError::Encoding) => cab_extract_spec(data@, "products.xml"@) matches Some(b) && !valid_utf8(b),
            Err(CatalogError::Xml(_)) => cab_extract_spec(data@, "products.xml"@) matches Some(b) && valid_utf8(b)
                && xml_nodes(decode_utf8(b)) is None,
            Err(CatalogError::NoFilename) => false,
        },
{
    let bytes = extract_cab_file(data, "products.xml")?;
    let text = match string_from_utf8(bytes) {
        Some(t) => t,
        None => return Err(CatalogError::Encoding),
    };
    match parse_xml(text.as_str()) {
        Ok(nodes) => Ok(find_files(&nodes)),
        Err(e) => Err(CatalogError::Xml(e)),
    }
}

pub open spec fn count_selected(files: Seq<FileInfo>, config: &Config) -> nat
    decreases files.len(),
{
    if files.len() == 0 {
        0
    } else {
        count_selected(files.drop_last(), config) + if files.last().selected_by(config) {
            1nat
        } else {
            0nat
        }
    }
}

proof fn lemma_count_unique(files: Seq<FileInfo>, config: &Config, k: int)
    requires
        0 <= k < files.len(),
        files[k].selected_by(config),
        forall|j: int| 0 <= j < files.len() && j != k ==> !(#[trigger] files[j]).selected_by(config),
    ensures
        count_selected(files, config) == 1,
    decreases files.len(),
{
    let t = files.drop_last();
    if k < files.len() - 1 {
        assert forall|j: int| 0 <= j < t.len() && j != k implies !(#[trigger] t[j]).selected_by(config) by {
            assert(t[j] == files[j]);
        }
        assert(t[k] == files[k]);
        lemma_count_unique(t, config, k);
    } else {
        lemma_count_none(t, config);
    }
}

proof fn lemma_count_none(files: Seq<FileInfo>, config: &Config)
    requires
        forall|j: int| 0 <= j < files.len() ==> !(#[trigger] files[j]).selected_by(config),
    ensures
        count_selected(files, config) == 0,
    decreases files.len(),
{
    if files.len() > 0 {
        let t = files.drop_last();
        assert forall|j: int| 0 <= j < t.len() implies !(#[trigger] t[j]).selected_by(config) by {
            assert(t[j] == files[j]);
        }
        lemma_count_none(t, config);
    }
}

proof fn lemma_count_two(files: Seq<FileInfo>, config: &Config, a: int, b: int)
    requires
        0 <= a < b < files.len(),
        files[a].selected_by(config),
        files[b].selected_by(config),
    ensures
        count_selected(files, config) >= 2,
    decreases files.len(),
{
    let t = files.drop_last();
    if b < files.len() - 1 {
        assert(t[a] == files[a] && t[b] == files[b]);
        lemma_count_two(t, config, a, b);
    } else {
        assert(t[a] == files[a]);
        lemma_count_one(t, config, a);
    }
}

proof fn lemma_count_one(files: Seq<FileInfo>, config: &Config, a: int)
    requires
        0 <= a < files.len(),
        files[a].selected_by(config),
    ensures
        count_selected(files, config) >= 1,
    decreases files.len(),
{
    let t = files.drop_last();
    if a < files.len() - 1 {
        assert(t[a] == files[a]);
        lemma_count_one(t, config, a);
    }
}

/// Picks the one catalog entry that the configuration selects (language,
/// edition and architecture, up to ASCII case).
pub fn find_file_info(files: Vec<FileInfo>, config: &Config) -> (r: Result<FileInfo, ResolveError>)
    ensures
        count_selected(files@, config) == 0 <==> r == Err::<FileInfo, ResolveError>(ResolveError::NoMatch),
        count_selected(files@, config) > 1 <==> r == Err::<FileInfo, ResolveError>(ResolveError::Ambiguous),
        r matches Ok(f) ==> f.selected_by(config) && files@.contains(f),
{
    let ghost orig = files@;
    let arch = config.arch.as_str();
    let mut found: Option<usize> = None;
    let mut i: usize = 0;
    while i < files.len()
        invariant
            files@ == orig,
            i <= files@.len(),
            arch@ == config.arch.wire_name(),
            match found {
                None => forall|j: int| 0 <= j < i ==> !(#[trigger] files@[j]).selected_by(config),
                Some(k) => k < i && files@[k as int].selected_by(config) && forall|j: int|
                    0 <= j < i && j != k ==> !(#[trigger] files@[j]).selected_by(config),
            },
        decreases files@.len() - i,
    {
        let f = &files[i];
        let hit = eq_ignore_ascii_case(f.language_code.as_str(), config.lang.as_str())
            && eq_ignore_ascii_case(f.edition.as_str(), config.edition.as_str())
            && eq_ignore_ascii_case(f.architecture.as_str(), arch);
        if hit {
            match found {
                Some(k) => {
                    proof {
                        lemma_count_two(orig, config, k as int, i as int);
                    }
                    return Err(ResolveError::Ambiguous);
                },
                None => {
                    found = Some(i);
                },
            }
        }
        i = i + 1;
    }
    match found {
        None => {
            proof {
                lemma_count_none(orig, config);
            }
            Err(ResolveError::NoMatch)
        },
        Some(k) => {
            proof {
                lemma_count_unique(orig, config, k as int);
            }
            let mut pool = files;
            let f = pool.remove(k);
            assert(orig[k as int] == f);
            Ok(f)
        },
    }
}

/// The file name of a URL without its extension: the last path segment, with the
/// query and fragment removed and the text from its last `.` on removed where
/// that `.` is not the segment's first character.
pub open spec fn url_stem_spec(url: Seq<char>) -> Option<Seq<char>> {
    let end: int = match find_first(url, is_either('?', '#')) {
        Some(k) => k as int,
        None => url.len() as int,
    };
    let path = url.subrange(0, end);
    match find_last(path, '/') {
        Some(pos) => if pos + 1 < path.len() {
            let name = path.subrange(pos + 1 as int, path.len() as int);
            match find_last(name, '.') {
                Some(d) => if d > 0 {
                    Some(name.subrange(0, d as int))
                } else {
                    Some(name)
                },
                None => Some(name),
            }
        } else {
            None
        },
        None => None,
    }
}

/// The file name of a URL without its extension.
pub fn filename_without_extension(url: &String) -> (r: Result<String, CatalogError>)
    ensures
        match (r, url_stem_spec(url@)) {
            (Ok(s), Some(t)) => s@ == t,
            (Err(e), None) => e is NoFilename,
            _ => false,
        },
{
    let u = url.as_str();
    let n = u.unicode_len();
    let end: usize = match find_first_of(u, '?', '#') {
        Some(k) => k,
        None => n,
    };
    let path = u.substring_char(0, end);
    let pn = path.unicode_len();
    match find_last_of(path, '/') {
        Some(pos) => {
            if pos + 1 < pn {
                let name = path.substring_char(pos + 1, pn);
                match find_last_of(name, '.') {
                    Some(d) => {
                        if d > 0 {
                            Ok(name.substring_char(0, d).to_owned())
                        } else {
                            Ok(name.to_owned())
                        }
                    },
                    None => Ok(name.to_owned()),
                }
            } else {
                Err(CatalogError::NoFilename)
            }
        },
        None => Err(CatalogError::NoFilename),
    }
}

} // verus!
