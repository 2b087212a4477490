use vstd::prelude::*;

use crate::error::{FormatFailure, IoFailure, WimError};
use crate::header::{header_decoded, wim_signature, WimHeader, HEADER_SIZE};
use crate::image::{
    arch_from_tag, arch_of_fragment, image_record, image_records, parse_image, parse_images,
    records_of, ImageInfo, ImageRecord,
};
use crate::summary::{
    char_vecs_view, editions_from_lowered, editions_of, primary_label, primary_of, sizes_sum,
    strings_view, total_of, WindowsInfo,
};
use crate::text::{
    chars_of, contains, contains_chars, decimal, lower_of, lowercase, opt_chars, push_all,
    push_decimal, string_of,
};
use crate::utf16::{decode_xml_text, scalars_of, xml_text_outcome};

verus! {

/// A parsing session: the header once decoded, and the images of the latest
/// metadata decoded. Reading the archive is left to the caller, who hands
/// over the bytes.
pub struct WimParser {
    header: Option<WimHeader>,
    images: Vec<ImageInfo>,
}

/// The version labels of a list of records.
pub open spec fn version_labels(recs: Seq<ImageRecord>) -> Seq<Option<Seq<char>>> {
    recs.map_values(|r: ImageRecord| r.version)
}

/// The architecture labels of a list of records.
pub open spec fn arch_labels(recs: Seq<ImageRecord>) -> Seq<Option<Seq<char>>> {
    recs.map_values(|r: ImageRecord| r.architecture)
}

/// What a call of `decode_header` on session `pre` with bytes `b` may give:
/// the cached header where there is one, else the header that `b` holds.
pub open spec fn header_decode_post(
    pre: WimParser,
    b: Seq<u8>,
    post: WimParser,
    r: Result<WimHeader, WimError>,
) -> bool {
    match pre.header_state() {
        Some(h) => r == Ok::<WimHeader, WimError>(h) && post == pre,
        None => if b.len() < HEADER_SIZE {
            r == Err::<WimHeader, WimError>(WimError::Io(IoFailure::ShortHeader)) && post == pre
        } else if b.subrange(0, 8) != wim_signature() {
            r == Err::<WimHeader, WimError>(WimError::Format(FormatFailure::InvalidSignature))
                && post == pre
        } else {
            &&& r is Ok
            &&& header_decoded(b, r->Ok_0)
            &&& post.header_state() == Some(r->Ok_0)
            &&& post.images_state() == pre.images_state()
        },
    }
}

impl WimParser {
    /// The cached header, if one was decoded.
    pub closed spec fn header_state(&self) -> Option<WimHeader> {
        self.header
    }

    /// The images of the latest metadata decoded.
    pub closed spec fn images_state(&self) -> Seq<ImageInfo> {
        self.images@
    }

    /// A session with no header and no images.
    pub fn new_for_test() -> (r: WimParser)
        ensures
            r.header_state() is None,
            r.images_state().len() == 0,
    {
        WimParser { header: None, images: Vec::new() }
    }

    /// Whether the header still has to be read; once decoded it is never read
    /// again.
    pub fn needs_header(&self) -> (r: bool)
        ensures
            r == (self.header_state() is None),
    {
        self.header.is_none()
    }

    /// Decodes and caches the header held in `buffer`, unless one is cached
    /// already: then that one is returned and `buffer` is not looked at.
    pub fn decode_header(&mut self, buffer: &[u8]) -> (r: Result<WimHeader, WimError>)
        ensures
            header_decode_post(*old(self), buffer@, *final(self), r),
    {
        match self.header {
            Some(h) => {
                return Ok(h);
            },
            None => {},
        }
        if buffer.len() < HEADER_SIZE {
            return Err(WimError::Io(IoFailure::ShortHeader));
        }
        let header = WimHeader::decode(buffer);
        if !header.has_valid_signature() {
            return Err(WimError::Format(FormatFailure::InvalidSignature));
        }
        self.header = Some(header);
        Ok(header)
    }

    /// Where the metadata lies: offset and size of the XML data resource.
    pub fn xml_data_location(&self) -> (r: Result<(u64, usize), WimError>)
        requires
            self.header_state() is Some,
        ensures
            ({
                let e = self.header_state()->0.xml_data_resource;
                if e.size == 0 {
                    r == Err::<(u64, usize), WimError>(
                        WimError::Format(FormatFailure::MissingXmlData),
                    )
                } else if e.size > usize::MAX {
                    r == Err::<(u64, usize), WimError>(WimError::Io(IoFailure::OutOfRange))
                } else {
                    r == Ok::<(u64, usize), WimError>((e.offset, e.size as usize))
                }
            }),
    {
        let e = match &self.header {
            Some(h) => h.xml_data_resource,
            None => {
                return Err(WimError::Format(FormatFailure::MissingXmlData));
            },
        };
        if e.size == 0 {
            Err(WimError::Format(FormatFailure::MissingXmlData))
        } else if e.size > usize::MAX as u64 {
            Err(WimError::Io(IoFailure::OutOfRange))
        } else {
            Ok((e.offset, e.size as usize))
        }
    }

    /// Replaces the image list with the images of the decoded metadata text.
    pub fn load_xml_text(&mut self, text: &[char])
        ensures
            final(self).header_state() == old(self).header_state(),
            records_of(final(self).images_state()) == image_records(text@),
    {
        self.images = parse_images(text);
    }

    /// Decodes the bytes of the XML data resource and replaces the image list
    /// with the images they describe. On failure the session is unchanged.
    pub fn load_xml_data(&mut self, buffer: &[u8]) -> (r: Result<(), WimError>)
        ensures
            match xml_text_outcome(buffer@) {
                Err(e) => r == Err::<(), WimError>(e) && *final(self) == *old(self),
                Ok(s) => {
                    &&& r is Ok
                    &&& final(self).header_state() == old(self).header_state()
                    &&& exists|t: Seq<char>|
                        scalars_of(t) == s && records_of(final(self).images_state())
                            == image_records(t)
                },
            },
    {
        match decode_xml_text(buffer) {
            Ok(text) => {
                self.load_xml_text(text.as_slice());
                assert(scalars_of(text@) == xml_text_outcome(buffer@)->Ok_0);
                Ok(())
            },
            Err(e) => Err(e),
        }
    }

    /// Extracts the record of one image fragment; it never fails.
    pub fn parse_single_image_xml(&self, image_xml: &str) -> (r: Result<ImageInfo, WimError>)
        ensures
            r is Ok,
            r->Ok_0@ == image_record(image_xml@),
    {
        let x = chars_of(image_xml);
        Ok(parse_image(x.as_slice()))
    }

    /// The architecture that the ARCH tag of a fragment names.
    pub fn parse_arch_from_xml(&self, image_xml: &str) -> (r: Option<String>)
        ensures
            opt_chars(r) == arch_from_tag(image_xml@),
    {
        let x = chars_of(image_xml);
        arch_of_fragment(x.as_slice())
    }

    pub fn get_images(&self) -> (r: &[ImageInfo])
        ensures
            r@ == self.images_state(),
    {
        self.images.as_slice()
    }

    /// The first image whose INDEX is `index`.
    pub fn get_image(&self, index: u32) -> (r: Option<&ImageInfo>)
        ensures
            match r {
                Some(img) => exists|i: int|
                    0 <= i < self.images_state().len() && self.images_state()[i] == *img
                        && img.index == index && forall|j: int|
                        0 <= j < i ==> self.images_state()[j].index != index,
                None => forall|i: int|
                    0 <= i < self.images_state().len() ==> self.images_state()[i].index != index,
            },
    {
        let mut i: usize = 0;
        while i < self.images.len()
            invariant
                i <= self.images@.len(),
                forall|j: int| 0 <= j < i ==> self.images@[j].index != index,
            decreases self.images@.len() - i,
        {
            if self.images[i].index == index {
                return Some(&self.images[i]);
            }
            i = i + 1;
        }
        None
    }

    pub fn get_header(&self) -> (r: Option<&WimHeader>)
        ensures
            match r {
                Some(h) => self.header_state() == Some(*h),
                None => self.header_state() is None,
            },
    {
        self.header.as_ref()
    }

    /// The header advertises more than one image.
    pub fn has_multiple_images(&self) -> (r: bool)
        ensures
            r == match self.header_state() {
                Some(h) => h.image_count > 1,
                None => false,
            },
    {
        match &self.header {
            Some(h) => h.image_count > 1,
            None => false,
        }
    }

    /// The image count that the header advertises; 0 without a header.
    pub fn get_image_count(&self) -> (r: u32)
        ensures
            r == match self.header_state() {
                Some(h) => h.image_count,
                None => 0,
            },
    {
        match &self.header {
            Some(h) => h.image_count,
            None => 0,
        }
    }

    pub fn is_compressed(&self) -> (r: bool)
        ensures
            r == match self.header_state() {
                Some(h) => h.file_flags & 2 != 0,
                None => false,
            },
    {
        match &self.header {
            Some(h) => h.is_compressed(),
            None => false,
        }
    }

    /// The compression scheme of the header's flags; none without a header.
    pub fn get_compression_type(&self) -> (r: Option<&'static str>)
        ensures
            self.header_state() is None ==> r is None,
            self.header_state() is Some ==> {
                let f = self.header_state()->0.file_flags;
                &&& f & 0x20000 != 0 ==> r == Some("XPRESS")
                &&& f & 0x20000 == 0 && f & 0x40000 != 0 ==> r == Some("LZX")
                &&& f & 0x20000 == 0 && f & 0x40000 == 0 && f & 2 != 0 ==> r == Some("Unknown")
                &&& f & 0x20000 == 0 && f & 0x40000 == 0 && f & 2 == 0 ==> r is None
            },
    {
        match &self.header {
            Some(h) => h.compression_type(),
            None => None,
        }
    }
}

/// Lower-case labels, each matched against a lower-case query: whether one is
/// present and holds the query.
pub fn any_label_contains(labels: &[Option<Vec<char>>], query: &[char]) -> (r: bool)
    ensures
        r == exists|i: int|
            0 <= i < labels@.len() && #[trigger] labels@[i] is Some && contains(
                labels@[i]->0@,
                query@,
            ),
{
    let mut i: usize = 0;
    while i < labels.len()
        invariant
            i <= labels@.len(),
            forall|j: int|
                0 <= j < i && #[trigger] labels@[j] is Some ==> !contains(labels@[j]->0@, query@),
        decreases labels@.len() - i,
    {
        match &labels[i] {
            Some(l) => {
                if contains_chars(l.as_slice(), query) {
                    return true;
                }
            },
            None => {},
        }
        i = i + 1;
    }
    false
}

/// The lower-case forms of present labels; absent ones stay absent.
pub open spec fn lowered_labels(labels: Seq<Option<Seq<char>>>) -> Seq<Option<Seq<char>>> {
    labels.map_values(
        |o: Option<Seq<char>>|
            match o {
                Some(l) => Some(lower_of(l)),
                None => None,
            },
    )
}

pub open spec fn opt_vecs_view(v: Seq<Option<Vec<char>>>) -> Seq<Option<Seq<char>>> {
    v.map_values(
        |o: Option<Vec<char>>|
            match o {
                Some(l) => Some(l@),
                None => None,
            },
    )
}

/// One line of the version summary: index and name, then the version in
/// parentheses and the architecture in brackets where known.
pub open spec fn summary_line(r: ImageRecord) -> Seq<char> {
    "镜像 "@ + decimal(r.index as nat) + ": "@ + r.name + match r.version {
        Some(v) => " ("@ + v + ")"@,
        None => Seq::empty(),
    } + match r.architecture {
        Some(a) => " ["@ + a + "]"@,
        None => Seq::empty(),
    }
}

fn clone_label(o: &Option<String>) -> (r: Option<String>)
    ensures
        opt_chars(r) == opt_chars(*o),
{
    match o {
        Some(s) => Some(s.clone()),
        None => None,
    }
}

/// The version labels (or, with `arch`, the architecture labels) of images.
fn labels_of(images: &[ImageInfo], arch: bool) -> (r: Vec<Option<String>>)
    ensures
        r@.map_values(|o: Option<String>| opt_chars(o)) == if arch {
            arch_labels(records_of(images@))
        } else {
            version_labels(records_of(images@))
        },
{
    let ghost want = if arch {
        arch_labels(records_of(images@))
    } else {
        version_labels(records_of(images@))
    };
    let mut out: Vec<Option<String>> = Vec::new();
    let mut i: usize = 0;
    while i < images.len()
        invariant
            i <= images@.len(),
            want == if arch {
                arch_labels(records_of(images@))
            } else {
                version_labels(records_of(images@))
            },
            out@.map_values(|o: Option<String>| opt_chars(o)) == want.subrange(0, i as int),
        decreases images@.len() - i,
    {
        let l = if arch {
            clone_label(&images[i].architecture)
        } else {
            clone_label(&images[i].version)
        };
        let ghost before = out@;
        out.push(l);
        proof {
            assert(want[i as int] == opt_chars(l));
            assert(out@ == before.push(l));
            assert(out@.map_values(|o: Option<String>| opt_chars(o)) =~= before.map_values(
                |o: Option<String>| opt_chars(o),
            ).push(opt_chars(l)));
            assert(out@.map_values(|o: Option<String>| opt_chars(o)) =~= want.subrange(
                0,
                i + 1,
            ));
        }
        i = i + 1;
    }
    assert(want.subrange(0, i as int) =~= want);
    out
}

/// Lower-cases each present label.
fn lower_labels(labels: &[Option<String>]) -> (r: Vec<Option<Vec<char>>>)
    ensures
        opt_vecs_view(r@) == lowered_labels(labels@.map_values(|o: Option<String>| opt_chars(o))),
{
    let ghost want = lowered_labels(labels@.map_values(|o: Option<String>| opt_chars(o)));
    let mut out: Vec<Option<Vec<char>>> = Vec::new();
    let mut i: usize = 0;
    while i < labels.len()
        invariant
            i <= labels@.len(),
            want == lowered_labels(labels@.map_values(|o: Option<String>| opt_chars(o))),
            opt_vecs_view(out@) == want.subrange(0, i as int),
        decreases labels@.len() - i,
    {
        let l = match &labels[i] {
            Some(s) => {
                let lowered = lowercase(s.as_str());
                Some(chars_of(lowered.as_str()))
            },
            None => None,
        };
        let ghost before = out@;
        out.push(l);
        proof {
            assert(out@ == before.push(l));
            assert(opt_vecs_view(out@) =~= opt_vecs_view(before).push(opt_vecs_view(out@)[i as int]));
            assert(opt_vecs_view(out@) =~= want.subrange(0, i + 1));
        }
        i = i + 1;
    }
    assert(want.subrange(0, i as int) =~= want);
    out
}

/// Header bytes whose signature is not the archive magic make a fresh
/// session's header decoding fail with a format error, and no header is cached.
pub proof fn lemma_bad_signature_not_cached(
    s0: WimParser,
    b: Seq<u8>,
    s1: WimParser,
    r: Result<WimHeader, WimError>,
)
    requires
        header_decode_post(s0, b, s1, r),
        s0.header_state() is None,
        b.len() >= HEADER_SIZE,
        b.subrange(0, 8) != wim_signature(),
    ensures
        r == Err::<WimHeader, WimError>(WimError::Format(FormatFailure::InvalidSignature)),
        s1.header_state() is None,
{
}

/// Once a session has decoded its header, decoding again returns the same
/// header, needs no further read and leaves the session as it was.
pub proof fn lemma_header_decode_idempotent(
    s0: WimParser,
    b1: Seq<u8>,
    s1: WimParser,
    r1: Result<WimHeader, WimError>,
    b2: Seq<u8>,
    s2: WimParser,
    r2: Result<WimHeader, WimError>,
)
    requires
        header_decode_post(s0, b1, s1, r1),
        r1 is Ok,
        header_decode_post(s1, b2, s2, r2),
    ensures
        s1.header_state() is Some,
        r2 == r1,
        s2 == s1,
{
}


impl WimParser {
    /// The most frequent version label among the images; ties go to the label
    /// seen first.
    pub fn get_primary_version(&self) -> (r: Option<String>)
        ensures
            opt_chars(r) == primary_label(version_labels(records_of(self.images_state()))),
    {
        let labels = labels_of(self.images.as_slice(), false);
        primary_of(labels.as_slice())
    }

    /// The most frequent architecture label among the images; ties go to the
    /// label seen first.
    pub fn get_primary_architecture(&self) -> (r: Option<String>)
        ensures
            opt_chars(r) == primary_label(arch_labels(records_of(self.images_state()))),
    {
        let labels = labels_of(self.images.as_slice(), true);
        primary_of(labels.as_slice())
    }

    /// Some image has a version that holds `version`, compared in lower case.
    pub fn has_version(&self, version: &str) -> (r: bool)
        ensures
            r == exists|i: int|
                0 <= i < self.images_state().len() && #[trigger] self.images_state()[i]@.version is Some
                    && contains(
                    lower_of(self.images_state()[i]@.version->0),
                    lower_of(version@),
                ),
    {
        let labels = labels_of(self.images.as_slice(), false);
        let lowered = lower_labels(labels.as_slice());
        let q = lowercase(version);
        let qc = chars_of(q.as_str());
        let r = any_label_contains(lowered.as_slice(), qc.as_slice());
        proof {
            let ls = opt_vecs_view(lowered@);
            let imgs = self.images_state();
            let vl = version_labels(records_of(imgs));
            assert(ls == lowered_labels(vl));
            assert(ls.len() == imgs.len());
            assert forall|i: int| 0 <= i < imgs.len() implies ls[i] == match imgs[i]@.version {
                Some(l) => Some(lower_of(l)),
                None => None,
            } by {
                assert(vl[i] == imgs[i]@.version);
            }
            if r {
                let i = choose|i: int|
                    0 <= i < lowered@.len() && #[trigger] lowered@[i] is Some && contains(
                        lowered@[i]->0@,
                        qc@,
                    );
                assert(ls[i] is Some);
                assert(imgs[i]@.version is Some);
            } else {
                assert forall|i: int|
                    0 <= i < imgs.len() && #[trigger] imgs[i]@.version is Some implies !contains(
                        lower_of(imgs[i]@.version->0),
                        lower_of(version@),
                    ) by {
                    assert(ls[i] is Some);
                    assert(lowered@[i] is Some);
                }
            }
        }
        r
    }

    /// Some image has an architecture that holds `arch`, compared in lower case.
    pub fn has_architecture(&self, arch: &str) -> (r: bool)
        ensures
            r == exists|i: int|
                0 <= i < self.images_state().len()
                    && #[trigger] self.images_state()[i]@.architecture is Some && contains(
                    lower_of(self.images_state()[i]@.architecture->0),
                    lower_of(arch@),
                ),
    {
        let labels = labels_of(self.images.as_slice(), true);
        let lowered = lower_labels(labels.as_slice());
        let q = lowercase(arch);
        let qc = chars_of(q.as_str());
        let r = any_label_contains(lowered.as_slice(), qc.as_slice());
        proof {
            let ls = opt_vecs_view(lowered@);
            let imgs = self.images_state();
            let vl = arch_labels(records_of(imgs));
            assert(ls == lowered_labels(vl));
            assert(ls.len() == imgs.len());
            assert forall|i: int| 0 <= i < imgs.len() implies ls[i] == match imgs[i]@.architecture {
                Some(l) => Some(lower_of(l)),
                None => None,
            } by {
                assert(vl[i] == imgs[i]@.architecture);
            }
            if r {
                let i = choose|i: int|
                    0 <= i < lowered@.len() && #[trigger] lowered@[i] is Some && contains(
                        lowered@[i]->0@,
                        qc@,
                    );
                assert(ls[i] is Some);
                assert(imgs[i]@.architecture is Some);
            } else {
                assert forall|i: int|
                    0 <= i < imgs.len() && #[trigger] imgs[i]@.architecture is Some implies !contains(
                        lower_of(imgs[i]@.architecture->0),
                        lower_of(arch@),
                    ) by {
                    assert(ls[i] is Some);
                    assert(lowered@[i] is Some);
                }
            }
        }
        r
    }
}


/// The lower-case names of a list of records.
pub open spec fn lowered_names(recs: Seq<ImageRecord>) -> Seq<Seq<char>> {
    recs.map_values(|x: ImageRecord| lower_of(x.name))
}

/// The sizes of a list of records.
pub open spec fn sizes_of(recs: Seq<ImageRecord>) -> Seq<u64> {
    recs.map_values(|x: ImageRecord| x.total_bytes)
}

fn summary_line_of(img: &ImageInfo) -> (r: String)
    ensures
        r@ == summary_line(img@),
{
    let mut line = chars_of("镜像 ");
    push_decimal(img.index as u64, &mut line);
    push_all(&mut line, chars_of(": ").as_slice());
    push_all(&mut line, chars_of(img.name.as_str()).as_slice());
    let ghost head = line@;
    match &img.version {
        Some(v) => {
            push_all(&mut line, chars_of(" (").as_slice());
            push_all(&mut line, chars_of(v.as_str()).as_slice());
            push_all(&mut line, chars_of(")").as_slice());
        },
        None => {},
    }
    let ghost mid = line@;
    match &img.architecture {
        Some(a) => {
            push_all(&mut line, chars_of(" [").as_slice());
            push_all(&mut line, chars_of(a.as_str()).as_slice());
            push_all(&mut line, chars_of("]").as_slice());
        },
        None => {},
    }
    assert(line@ =~= summary_line(img@));
    string_of(line.as_slice())
}

impl WimParser {
    /// One line per image: index and name, with version and architecture
    /// where known.
    pub fn get_version_summary(&self) -> (r: Vec<String>)
        ensures
            strings_view(r@) == records_of(self.images_state()).map_values(
                |x: ImageRecord| summary_line(x),
            ),
    {
        let ghost want = records_of(self.images@).map_values(|x: ImageRecord| summary_line(x));
        let mut out: Vec<String> = Vec::new();
        let mut i: usize = 0;
        while i < self.images.len()
            invariant
                i <= self.images@.len(),
                want == records_of(self.images@).map_values(|x: ImageRecord| summary_line(x)),
                strings_view(out@) == want.subrange(0, i as int),
            decreases self.images@.len() - i,
        {
            let line = summary_line_of(&self.images[i]);
            let ghost before = out@;
            out.push(line);
            proof {
                assert(want[i as int] == line@);
                assert(strings_view(out@) =~= strings_view(before).push(line@));
                assert(strings_view(out@) =~= want.subrange(0, i + 1));
            }
            i = i + 1;
        }
        assert(want.subrange(0, i as int) =~= want);
        out
    }

    /// The archive summary: primary version and architecture, editions, image
    /// count and total size. Only given where both primary labels exist and
    /// the version, in lower case, holds "windows".
    pub fn get_windows_info(&self) -> (r: Option<WindowsInfo>)
        ensures
            ({
                let recs = records_of(self.images_state());
                let pv = primary_label(version_labels(recs));
                let pa = primary_label(arch_labels(recs));
                match r {
                    None => pv is None || pa is None || !contains(lower_of(pv->0), "windows"@),
                    Some(w) => {
                        &&& pv == Some(w.version@)
                        &&& pa == Some(w.architecture@)
                        &&& contains(lower_of(w.version@), "windows"@)
                        &&& strings_view(w.editions@) == editions_of(lowered_names(recs))
                        &&& w.image_count == recs.len() as u32
                        &&& w.total_size as nat == sizes_sum(sizes_of(recs))
                            % 0x1_0000_0000_0000_0000
                    },
                }
            }),
    {
        let version = match self.get_primary_version() {
            Some(v) => v,
            None => {
                return None;
            },
        };
        let architecture = match self.get_primary_architecture() {
            Some(a) => a,
            None => {
                return None;
            },
        };
        let lv = lowercase(version.as_str());
        if !contains_chars(chars_of(lv.as_str()).as_slice(), chars_of("windows").as_slice()) {
            return None;
        }
        let ghost recs = records_of(self.images@);
        let mut names: Vec<Vec<char>> = Vec::new();
        let mut sizes: Vec<u64> = Vec::new();
        let mut i: usize = 0;
        while i < self.images.len()
            invariant
                i <= self.images@.len(),
                recs == records_of(self.images@),
                char_vecs_view(names@) == lowered_names(recs).subrange(0, i as int),
                sizes@ == sizes_of(recs).subrange(0, i as int),
            decreases self.images@.len() - i,
        {
            let lowered = lowercase(self.images[i].name.as_str());
            let ghost before = names@;
            names.push(chars_of(lowered.as_str()));
            sizes.push(self.images[i].total_bytes);
            proof {
                assert(char_vecs_view(names@) =~= char_vecs_view(before).push(lower_of(recs[i as int].name)));
                assert(char_vecs_view(names@) =~= lowered_names(recs).subrange(0, i + 1));
                assert(sizes@ =~= sizes_of(recs).subrange(0, i + 1));
            }
            i = i + 1;
        }
        assert(lowered_names(recs).subrange(0, i as int) =~= lowered_names(recs));
        assert(sizes_of(recs).subrange(0, i as int) =~= sizes_of(recs));
        Some(
            WindowsInfo {
                version,
                architecture,
                editions: editions_from_lowered(names.as_slice()),
                image_count: self.images.len() as u32,
                total_size: total_of(sizes.as_slice()),
            },
        )
    }
}

} // verus!
