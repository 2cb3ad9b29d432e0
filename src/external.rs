//! Calls into std functions that vstd leaves unspecified, and into the
//! bibliography and front-matter parsers.
use vstd::prelude::*;
use biblatex::{Bibliography, Chunk, ParseError, Spanned};
use yaml_rust2::{ScanError, Yaml, YamlLoader};

verus! {

/// Unicode `White_Space`, the whitespace of `char::is_whitespace` and `str::trim`.
pub open spec fn is_ws(c: char) -> bool {
    let u = c as u32;
    (0x09 <= u <= 0x0d) || u == 0x20 || u == 0x85 || u == 0xa0 || u == 0x1680 || (0x2000 <= u
        <= 0x200a) || u == 0x2028 || u == 0x2029 || u == 0x202f || u == 0x205f || u == 0x3000
}

pub open spec fn trim_start(s: Seq<char>) -> Seq<char>
    decreases s.len(),
{
    if s.len() > 0 && is_ws(s[0]) {
        trim_start(s.drop_first())
    } else {
        s
    }
}

pub open spec fn trim_end(s: Seq<char>) -> Seq<char>
    decreases s.len(),
{
    if s.len() > 0 && is_ws(s.last()) {
        trim_end(s.drop_last())
    } else {
        s
    }
}

/// `s` without leading and trailing whitespace.
pub open spec fn trimmed(s: Seq<char>) -> Seq<char> {
    trim_end(trim_start(s))
}

/// Characters below 128.
pub open spec fn is_ascii_chars(s: Seq<char>) -> bool {
    forall|i: int| 0 <= i < s.len() ==> (#[trigger] s[i] as u32) < 128
}

/// The lower-case form of an ASCII letter; any other character unchanged.
pub open spec fn ascii_lower(c: char) -> char {
    match c {
        'A' => 'a',
        'B' => 'b',
        'C' => 'c',
        'D' => 'd',
        'E' => 'e',
        'F' => 'f',
        'G' => 'g',
        'H' => 'h',
        'I' => 'i',
        'J' => 'j',
        'K' => 'k',
        'L' => 'l',
        'M' => 'm',
        'N' => 'n',
        'O' => 'o',
        'P' => 'p',
        'Q' => 'q',
        'R' => 'r',
        'S' => 's',
        'T' => 't',
        'U' => 'u',
        'V' => 'v',
        'W' => 'w',
        'X' => 'x',
        'Y' => 'y',
        'Z' => 'z',
        _ => c,
    }
}

/// ASCII text with its letters lower-cased.
pub open spec fn ascii_lowered(s: Seq<char>) -> Seq<char> {
    s.map_values(|c: char| ascii_lower(c))
}

/// What `str::to_lowercase` returns for the given characters.
pub uninterp spec fn lower_of(s: Seq<char>) -> Seq<char>;

/// Relies on `str::trim`: leading and trailing `White_Space` characters removed.
#[verifier::external_body]
pub(crate) fn trim_str(s: &str) -> (r: &str)
    ensures
        r@ == trimmed(s@),
{
    s.trim()
}

/// Relies on `str::to_lowercase`: the result depends on the characters alone,
/// and on ASCII text it maps `A`..`Z` to `a`..`z` and keeps every other character.
#[verifier::external_body]
pub(crate) fn lowercase(s: &str) -> (r: String)
    ensures
        r@ == lower_of(s@),
        s@.len() == 0 ==> r@.len() == 0,
        is_ascii_chars(s@) ==> r@ == ascii_lowered(s@),
{
    s.to_lowercase()
}

/// Relies on `String::push`: appends one character.
#[verifier::external_body]
pub(crate) fn push_char(s: &mut String, c: char)
    ensures
        final(s)@ == old(s)@.push(c),
{
    s.push(c)
}


#[verifier::external_type_specification]
#[verifier::external_body]
pub struct ExBibliography(Bibliography);

#[verifier::external_type_specification]
#[verifier::external_body]
pub struct ExParseError(ParseError);

#[verifier::external_type_specification]
#[verifier::external_body]
pub struct ExYaml(Yaml);

#[verifier::external_type_specification]
#[verifier::external_body]
pub struct ExScanError(ScanError);

/// A bibliography entry as the bibliography parser holds it: the text
/// fragments of each field, in order.
pub struct RawEntry {
    pub key: String,
    /// The family name of each author.
    pub author: Option<Vec<String>>,
    pub title: Option<Vec<String>>,
    pub year: Option<Vec<String>>,
    pub doi: Option<Vec<String>>,
}

pub ghost struct RawEntryView {
    pub key: Seq<char>,
    pub author: Option<Seq<Seq<char>>>,
    pub title: Option<Seq<Seq<char>>>,
    pub year: Option<Seq<Seq<char>>>,
    pub doi: Option<Seq<Seq<char>>>,
}

pub open spec fn fragments_view(o: Option<Vec<String>>) -> Option<Seq<Seq<char>>> {
    match o {
        Some(v) => Some(v@.map_values(|s: String| s@)),
        None => None,
    }
}

impl View for RawEntry {
    type V = RawEntryView;

    open spec fn view(&self) -> RawEntryView {
        RawEntryView {
            key: self.key@,
            author: fragments_view(self.author),
            title: fragments_view(self.title),
            year: fragments_view(self.year),
            doi: fragments_view(self.doi),
        }
    }
}

/// The entries of a parsed bibliography, by every key that `Bibliography::get` finds.
pub uninterp spec fn bib_entries(b: Bibliography) -> Map<Seq<char>, RawEntryView>;

/// The entries that `biblatex::Bibliography::parse` finds in a source text, or
/// `None` where the text does not parse; the result depends on the text alone.
pub uninterp spec fn bib_source(src: Seq<char>) -> Option<Map<Seq<char>, RawEntryView>>;

/// Relies on `biblatex::Bibliography::parse`: a bibliography whose entries are
/// those of the source text.
#[verifier::external_body]
pub(crate) fn parse_bibliography(src: &str) -> (r: Result<Bibliography, ParseError>)
    ensures
        r is Ok <==> bib_source(src@) is Some,
        r matches Ok(b) ==> bib_entries(b) == bib_source(src@)->Some_0,
{
    Bibliography::parse(src)
}

/// Relies on `biblatex::Bibliography::get` and the entry's field accessors: the
/// entry found under `key`, with each field's chunks rendered as strings.
#[verifier::external_body]
pub(crate) fn bib_lookup(bib: &Bibliography, key: &str) -> (r: Option<RawEntry>)
    ensures
        r is None <==> !bib_entries(*bib).contains_key(key@),
        r matches Some(e) ==> e@ == bib_entries(*bib)[key@],
{
    let e = bib.get(key)?;
    let flat = |t: &[Spanned<Chunk>]| t.iter().map(|s| s.v.to_biblatex_string(false)).collect();
    Some(RawEntry {
        key: e.key.clone(),
        author: e.author().ok().map(|a| a.into_iter().map(|p| p.name).collect()),
        title: e.title().ok().map(flat),
        year: e.get("year").map(flat),
        doi: e.get("doi").map(flat),
    })
}

/// The string values of a YAML mapping, under its string keys.
pub uninterp spec fn yaml_strings(doc: Yaml) -> Map<Seq<char>, Seq<char>>;

/// The string values of the first document of a YAML text, or `None` where the
/// text does not parse or holds no document; the result depends on the text alone.
pub uninterp spec fn front_matter_strings(src: Seq<char>) -> Option<Map<Seq<char>, Seq<char>>>;

/// Relies on `yaml_rust2::YamlLoader::load_from_str`: the documents of a YAML text.
#[verifier::external_body]
pub(crate) fn load_yaml(src: &str) -> (r: Result<Vec<Yaml>, ScanError>)
    ensures
        (r is Ok && r->Ok_0@.len() > 0) <==> front_matter_strings(src@) is Some,
        (r is Ok && r->Ok_0@.len() > 0) ==> yaml_strings(r->Ok_0@[0]) == front_matter_strings(
            src@,
        )->Some_0,
{
    YamlLoader::load_from_str(src)
}

/// Relies on `Yaml`'s `Index<&str>` and `Yaml::as_str`: the string stored
/// under a string key of a mapping.
#[verifier::external_body]
pub(crate) fn yaml_str(doc: &Yaml, key: &str) -> (r: Option<String>)
    ensures
        r is None <==> !yaml_strings(*doc).contains_key(key@),
        r matches Some(v) ==> v@ == yaml_strings(*doc)[key@],
{
    doc[key].as_str().map(str::to_string)
}

} // verus!

