use vstd::prelude::*;

use crate::classify::{
    arch_code_label, arch_from_lowered, arch_from_text, arch_label_for_code, combined,
    lowered_combined, version_from_lowered, version_label,
};
use crate::text::{
    chars_of, contains, copy_range, decimal, find_chars, find_from, lemma_find_from, lower_of, opt_chars,
    parse_unsigned, parse_unsigned_range, push_all, push_decimal, string_of, trimmed,
    trimmed_range,
};

verus! {

/// What is known of one image of the archive.
#[derive(Debug, Clone)]
pub struct ImageInfo {
    /// The INDEX attribute; 0 where it is absent or not a number.
    pub index: u32,
    /// DISPLAYNAME; "Image <index>" where it is absent.
    pub name: String,
    /// DISPLAYDESCRIPTION; "Unknown" where it is absent.
    pub description: String,
    pub dir_count: u32,
    pub file_count: u32,
    pub total_bytes: u64,
    /// Not read from the metadata; always `None`.
    pub creation_time: Option<u64>,
    /// Not read from the metadata; always `None`.
    pub last_modification_time: Option<u64>,
    /// The version label that the name and description give.
    pub version: Option<String>,
    /// The architecture: from the ARCH code, else from name and description.
    pub architecture: Option<String>,
}

/// The value of an `ImageInfo`, with texts as character sequences.
pub struct ImageRecord {
    pub index: u32,
    pub name: Seq<char>,
    pub description: Seq<char>,
    pub dir_count: u32,
    pub file_count: u32,
    pub total_bytes: u64,
    pub creation_time: Option<u64>,
    pub last_modification_time: Option<u64>,
    pub version: Option<Seq<char>>,
    pub architecture: Option<Seq<char>>,
}

impl View for ImageInfo {
    type V = ImageRecord;

    open spec fn view(&self) -> ImageRecord {
        ImageRecord {
            index: self.index,
            name: self.name@,
            description: self.description@,
            dir_count: self.dir_count,
            file_count: self.file_count,
            total_bytes: self.total_bytes,
            creation_time: self.creation_time,
            last_modification_time: self.last_modification_time,
            version: opt_chars(self.version),
            architecture: opt_chars(self.architecture),
        }
    }
}

pub open spec fn open_tag(tag: Seq<char>) -> Seq<char> {
    seq!['<'] + tag + seq!['>']
}

pub open spec fn close_tag(tag: Seq<char>) -> Seq<char> {
    seq!['<', '/'] + tag + seq!['>']
}

/// The trimmed text between the first open tag and the first close tag of
/// `tag` in `x`; absent where either is missing or the close tag comes before
/// the open tag ends.
pub open spec fn tag_value(x: Seq<char>, tag: Seq<char>) -> Option<Seq<char>> {
    match find_from(x, open_tag(tag), 0) {
        Some(s) => match find_from(x, close_tag(tag), 0) {
            Some(e) => if s + open_tag(tag).len() < e {
                Some(trimmed(x.subrange(s + open_tag(tag).len(), e)))
            } else {
                None
            },
            None => None,
        },
        None => None,
    }
}

pub open spec fn opt_seq(o: Option<Vec<char>>) -> Option<Seq<char>> {
    match o {
        Some(v) => Some(v@),
        None => None,
    }
}

/// The INDEX attribute: the text after the first `INDEX="` up to the next `"`,
/// as an unsigned 32-bit number; 0 on any failure.
pub open spec fn index_attr(x: Seq<char>) -> u32 {
    match find_from(x, "INDEX=\""@, 0) {
        Some(i) => {
            let vs = i + "INDEX=\""@.len();
            match find_from(x, "\""@, vs) {
                Some(e) => match parse_unsigned(x.subrange(vs, e), u32::MAX as nat) {
                    Some(v) => v as u32,
                    None => 0,
                },
                None => 0,
            }
        },
        None => 0,
    }
}

/// A numeric field: the tag's value as a number no larger than `max`, else 0.
pub open spec fn number_field(v: Option<Seq<char>>, max: nat) -> nat {
    match v {
        Some(s) => match parse_unsigned(s, max) {
            Some(n) => n,
            None => 0,
        },
        None => 0,
    }
}

/// The architecture that the ARCH tag of a fragment gives.
pub open spec fn arch_from_tag(x: Seq<char>) -> Option<Seq<char>> {
    match tag_value(x, "ARCH"@) {
        Some(v) => arch_code_label(v),
        None => None,
    }
}

pub open spec fn image_name(x: Seq<char>) -> Seq<char> {
    match tag_value(x, "DISPLAYNAME"@) {
        Some(v) => v,
        None => "Image "@ + decimal(index_attr(x) as nat),
    }
}

pub open spec fn image_description(x: Seq<char>) -> Seq<char> {
    match tag_value(x, "DISPLAYDESCRIPTION"@) {
        Some(v) => v,
        None => "Unknown"@,
    }
}

/// The record that one image fragment describes.
pub open spec fn image_record(x: Seq<char>) -> ImageRecord {
    let lowered = lower_of(combined(image_name(x), image_description(x)));
    ImageRecord {
        index: index_attr(x),
        name: image_name(x),
        description: image_description(x),
        dir_count: number_field(tag_value(x, "DIRCOUNT"@), u32::MAX as nat) as u32,
        file_count: number_field(tag_value(x, "FILECOUNT"@), u32::MAX as nat) as u32,
        total_bytes: number_field(tag_value(x, "TOTALBYTES"@), u64::MAX as nat) as u64,
        creation_time: None,
        last_modification_time: None,
        version: version_label(lowered),
        architecture: match arch_from_tag(x) {
            Some(a) => Some(a),
            None => arch_from_text(lowered),
        },
    }
}

/// Looks up the value of `tag` in `x` by the first-match rule.
pub fn tag_value_of(x: &[char], tag: &str) -> (r: Option<Vec<char>>)
    ensures
        opt_seq(r) == tag_value(x@, tag@),
{
    let tc = chars_of(tag);
    let mut open: Vec<char> = Vec::new();
    open.push('<');
    push_all(&mut open, tc.as_slice());
    open.push('>');
    let mut close: Vec<char> = Vec::new();
    close.push('<');
    close.push('/');
    push_all(&mut close, tc.as_slice());
    close.push('>');
    assert(open@ =~= open_tag(tag@));
    assert(close@ =~= close_tag(tag@));
    match find_chars(x, open.as_slice(), 0) {
        Some(s) => match find_chars(x, close.as_slice(), 0) {
            Some(e) => {
                proof {
                    lemma_find_from(x@, open@, 0);
                    lemma_find_from(x@, close@, 0);
                }
                let xl = x.len();
                assert(s + open@.len() <= xl);
                let vs = s + open.len();
                if vs < e {
                    Some(trimmed_range(x, vs, e))
                } else {
                    None
                }
            },
            None => None,
        },
        None => None,
    }
}

fn number_of(v: Option<Vec<char>>, max: u64) -> (r: u64)
    ensures
        r as nat == number_field(opt_seq(v), max as nat),
{
    match v {
        Some(s) => {
            let n = s.len();
            assert(s@.subrange(0, n as int) =~= s@);
            match parse_unsigned_range(s.as_slice(), 0, n, max) {
                Some(k) => k,
                None => 0,
            }
        },
        None => 0,
    }
}

/// Reads the INDEX attribute of a fragment.
pub fn index_of(x: &[char]) -> (r: u32)
    ensures
        r == index_attr(x@),
{
    let key = chars_of("INDEX=\"");
    let quote = chars_of("\"");
    match find_chars(x, key.as_slice(), 0) {
        Some(i) => {
            proof {
                lemma_find_from(x@, key@, 0);
            }
            let xl = x.len();
            assert(i + key@.len() <= xl);
            let vs = i + key.len();
            match find_chars(x, quote.as_slice(), vs) {
                Some(e) => {
                    proof {
                        lemma_find_from(x@, quote@, vs as int);
                    }
                    match parse_unsigned_range(x, vs, e, 0xffff_ffff) {
                        Some(v) => v as u32,
                        None => 0,
                    }
                },
                None => 0,
            }
        },
        None => 0,
    }
}

/// The label of the ARCH code in a fragment, if the tag is there and the code
/// is one of the four known ones.
pub fn arch_of_fragment(x: &[char]) -> (r: Option<String>)
    ensures
        opt_chars(r) == arch_from_tag(x@),
{
    match tag_value_of(x, "ARCH") {
        Some(v) => arch_label_for_code(v.as_slice()),
        None => None,
    }
}

/// Extracts the record of one image fragment.
pub fn parse_image(x: &[char]) -> (r: ImageInfo)
    ensures
        r@ == image_record(x@),
{
    let index = index_of(x);
    let name: Vec<char> = match tag_value_of(x, "DISPLAYNAME") {
        Some(v) => v,
        None => {
            let mut d = chars_of("Image ");
            push_decimal(index as u64, &mut d);
            d
        },
    };
    let description: Vec<char> = match tag_value_of(x, "DISPLAYDESCRIPTION") {
        Some(v) => v,
        None => chars_of("Unknown"),
    };
    let dir_count = number_of(tag_value_of(x, "DIRCOUNT"), 0xffff_ffff) as u32;
    let file_count = number_of(tag_value_of(x, "FILECOUNT"), 0xffff_ffff) as u32;
    let total_bytes = number_of(tag_value_of(x, "TOTALBYTES"), 0xffff_ffff_ffff_ffff);
    let lowered = lowered_combined(name.as_slice(), description.as_slice());
    let version = version_from_lowered(lowered.as_slice());
    let architecture = match arch_of_fragment(x) {
        Some(a) => Some(a),
        None => arch_from_lowered(lowered.as_slice()),
    };
    ImageInfo {
        index,
        name: string_of(name.as_slice()),
        description: string_of(description.as_slice()),
        dir_count,
        file_count,
        total_bytes,
        creation_time: None,
        last_modification_time: None,
        version,
        architecture,
    }
}


/// The image fragments of `x` from position `pos` on: each runs from the next
/// `<IMAGE` to the first `</IMAGE>` after it, both included; the scan stops
/// where either is missing.
pub open spec fn fragments_from(x: Seq<char>, pos: int) -> Seq<Seq<char>>
    decreases x.len() + 1 - pos,
{
    if pos < 0 || pos > x.len() {
        Seq::empty()
    } else {
        match find_from(x, "<IMAGE"@, pos) {
            Some(s) => match find_from(x, "</IMAGE>"@, s) {
                Some(e) => {
                    let end = e + "</IMAGE>"@.len();
                    if pos < end && end <= x.len() {
                        seq![x.subrange(s, end)] + fragments_from(x, end)
                    } else {
                        Seq::empty()
                    }
                },
                None => Seq::empty(),
            },
            None => Seq::empty(),
        }
    }
}

/// The records of all image fragments of the text `x`, in order.
pub open spec fn image_records(x: Seq<char>) -> Seq<ImageRecord> {
    fragments_from(x, 0).map_values(|f: Seq<char>| image_record(f))
}

/// The records that a list of images holds.
pub open spec fn records_of(v: Seq<ImageInfo>) -> Seq<ImageRecord> {
    v.map_values(|i: ImageInfo| i@)
}

/// Splits the decoded metadata text into image fragments and extracts the
/// record of each.
pub fn parse_images(x: &[char]) -> (r: Vec<ImageInfo>)
    ensures
        records_of(r@) == image_records(x@),
{
    let open = chars_of("<IMAGE");
    let close = chars_of("</IMAGE>");
    proof {
        reveal_strlit("</IMAGE>");
    }
    let xl = x.len();
    let mut images: Vec<ImageInfo> = Vec::new();
    let mut pos: usize = 0;
    let ghost mut done: Seq<Seq<char>> = Seq::empty();
    while pos <= xl
        invariant
            xl == x@.len(),
            open@ == "<IMAGE"@,
            close@ == "</IMAGE>"@,
            close@.len() == 8,
            pos <= xl + 1,
            fragments_from(x@, 0) == done + fragments_from(x@, pos as int),
            records_of(images@) == done.map_values(|f: Seq<char>| image_record(f)),
        ensures
            fragments_from(x@, 0) == done,
            records_of(images@) == done.map_values(|f: Seq<char>| image_record(f)),
        decreases xl + 1 - pos,
    {
        let s = match find_chars(x, open.as_slice(), pos) {
            Some(s) => s,
            None => {
                assert(fragments_from(x@, pos as int) =~= Seq::<Seq<char>>::empty());
                assert(done + fragments_from(x@, pos as int) =~= done);
                break;
            },
        };
        let e = match find_chars(x, close.as_slice(), s) {
            Some(e) => e,
            None => {
                assert(fragments_from(x@, pos as int) =~= Seq::<Seq<char>>::empty());
                assert(done + fragments_from(x@, pos as int) =~= done);
                break;
            },
        };
        proof {
            lemma_find_from(x@, open@, pos as int);
            lemma_find_from(x@, close@, s as int);
        }
        let end = e + close.len();
        let fragment = copy_range(x, s, end);
        let info = parse_image(fragment.as_slice());
        proof {
            let f = x@.subrange(s as int, end as int);
            assert(fragments_from(x@, pos as int) == seq![f] + fragments_from(x@, end as int));
            assert(done + fragments_from(x@, pos as int) =~= done.push(f) + fragments_from(
                x@,
                end as int,
            ));
            done = done.push(f);
        }
        let ghost before = images@;
        images.push(info);
        proof {
            assert(images@ == before.push(info));
            assert(records_of(images@) =~= records_of(before).push(info@));
            assert(records_of(images@) =~= done.map_values(|f: Seq<char>| image_record(f)));
        }
        pos = end;
    }
    images
}


/// The ARCH code table: 0, 9, 5 and 12 map to x86, x64, ARM and ARM64, and
/// any other value maps to no label.
pub proof fn lemma_arch_code_table(v: Seq<char>)
    ensures
        arch_code_label("0"@) == Some("x86"@),
        arch_code_label("9"@) == Some("x64"@),
        arch_code_label("5"@) == Some("ARM"@),
        arch_code_label("12"@) == Some("ARM64"@),
        v != "0"@ && v != "9"@ && v != "5"@ && v != "12"@ ==> arch_code_label(v) is None,
{
    reveal_strlit("0");
    reveal_strlit("9");
    reveal_strlit("5");
    reveal_strlit("12");
    assert("9"@[0] != "0"@[0]);
    assert("5"@[0] != "0"@[0] && "5"@[0] != "9"@[0]);
    assert("12"@.len() != "0"@.len() && "12"@.len() != "9"@.len() && "12"@.len() != "5"@.len());
}

/// Where the ARCH code maps to a label, that label is the image's
/// architecture, whatever its name and description say; code 9 gives x64.
pub proof fn lemma_arch_tag_precedence(x: Seq<char>)
    ensures
        arch_from_tag(x) is Some ==> image_record(x).architecture == arch_from_tag(x),
        tag_value(x, "ARCH"@) == Some("9"@) ==> image_record(x).architecture == Some("x64"@),
{
    lemma_arch_code_table("9"@);
}

/// Without an ARCH tag the architecture comes from the lower-case name and
/// description; one that holds "x64" gives x64.
pub proof fn lemma_arch_fallback(x: Seq<char>)
    requires
        tag_value(x, "ARCH"@) is None,
    ensures
        image_record(x).architecture == arch_from_text(
            lower_of(combined(image_name(x), image_description(x))),
        ),
        contains(lower_of(combined(image_name(x), image_description(x))), "x64"@)
            ==> image_record(x).architecture == Some("x64"@),
{
}

} // verus!
