use vstd::prelude::*;

verus! {

/// Length of the fixed archive header, in bytes.
pub const HEADER_SIZE: usize = 204;

/// Length of one resource descriptor, in bytes.
pub const RESOURCE_ENTRY_SIZE: usize = 24;

/// A resource descriptor: where a blob of the archive lies and how large it is.
#[derive(Debug, Clone, Copy, PartialEq, Eq)]
pub struct FileResourceEntry {
    /// Size in bytes; stored on disk in seven bytes.
    pub size: u64,
    /// Bit set of `ResourceFlags`.
    pub flags: u8,
    /// Absolute offset of the blob in the archive.
    pub offset: u64,
    /// Size before compression.
    pub original_size: u64,
}

/// Bits of `FileResourceEntry::flags`.
#[derive(Debug, Clone, Copy)]
pub struct ResourceFlags;

impl ResourceFlags {
    /// The entry is free.
    pub const FREE: u8 = 0x01;
    /// The blob holds metadata.
    pub const METADATA: u8 = 0x02;
    /// The blob is compressed.
    pub const COMPRESSED: u8 = 0x04;
    /// The blob spans segments.
    pub const SPANNED: u8 = 0x08;
}

/// Bits of `WimHeader::file_flags`.
#[derive(Debug, Clone, Copy)]
pub struct FileFlags;

impl FileFlags {
    pub const COMPRESSION: u32 = 0x00000002;
    pub const READONLY: u32 = 0x00000004;
    pub const SPANNED: u32 = 0x00000008;
    pub const RESOURCE_ONLY: u32 = 0x00000010;
    pub const METADATA_ONLY: u32 = 0x00000020;
    pub const COMPRESS_XPRESS: u32 = 0x00020000;
    pub const COMPRESS_LZX: u32 = 0x00040000;
}

/// The fixed 204-byte archive header.
#[derive(Debug, Clone, Copy, PartialEq, Eq)]
pub struct WimHeader {
    pub signature: [u8; 8],
    pub header_size: u32,
    pub format_version: u32,
    pub file_flags: u32,
    pub compressed_size: u32,
    pub guid: [u8; 16],
    pub segment_number: u16,
    pub total_segments: u16,
    pub image_count: u32,
    pub offset_table_resource: FileResourceEntry,
    pub xml_data_resource: FileResourceEntry,
    pub boot_metadata_resource: FileResourceEntry,
    pub bootable_image_index: u32,
    pub integrity_resource: FileResourceEntry,
}

/// The magic that opens every archive: "MSWIM" and three zero bytes.
pub open spec fn wim_signature() -> Seq<u8> {
    seq![0x4du8, 0x53u8, 0x57u8, 0x49u8, 0x4du8, 0u8, 0u8, 0u8]
}

/// 256 to the power `n`.
pub open spec fn byte_pow(n: nat) -> nat
    decreases n,
{
    if n == 0 {
        1
    } else {
        256 * byte_pow((n - 1) as nat)
    }
}

/// The unsigned number that bytes `s` give, least significant first.
pub open spec fn le_value(s: Seq<u8>) -> nat
    decreases s.len(),
{
    if s.len() == 0 {
        0
    } else {
        s[0] as nat + 256 * le_value(s.drop_first())
    }
}

/// The `n` low bytes of `x`, least significant first.
pub open spec fn le_bytes(x: nat, n: nat) -> Seq<u8>
    decreases n,
{
    if n == 0 {
        Seq::empty()
    } else {
        seq![(x % 256) as u8] + le_bytes(x / 256, (n - 1) as nat)
    }
}

pub proof fn lemma_le_value_bound(s: Seq<u8>)
    ensures
        le_value(s) < byte_pow(s.len()),
    decreases s.len(),
{
    if s.len() > 0 {
        lemma_le_value_bound(s.drop_first());
    }
}

pub proof fn lemma_le_bytes(x: nat, n: nat)
    requires
        x < byte_pow(n),
    ensures
        le_bytes(x, n).len() == n,
        le_value(le_bytes(x, n)) == x,
    decreases n,
{
    if n > 0 {
        assert(x / 256 < byte_pow((n - 1) as nat)) by (nonlinear_arith)
            requires
                x < 256 * byte_pow((n - 1) as nat),
        ;
        lemma_le_bytes(x / 256, (n - 1) as nat);
        let s = le_bytes(x, n);
        assert(s.drop_first() =~= le_bytes(x / 256, (n - 1) as nat));
    }
}

proof fn lemma_byte_pow_mono(a: nat, b: nat)
    requires
        a <= b,
    ensures
        byte_pow(a) <= byte_pow(b),
    decreases b,
{
    if a < b {
        lemma_byte_pow_mono(a, (b - 1) as nat);
    }
}

proof fn lemma_byte_pow_values()
    ensures
        byte_pow(2) == 0x1_0000,
        byte_pow(4) == 0x1_0000_0000,
        byte_pow(7) == 0x100_0000_0000_0000,
        byte_pow(8) == 0x1_0000_0000_0000_0000,
{
    reveal_with_fuel(byte_pow, 9);
}

/// Reads the `w`-byte little-endian number at `off` in `b`.
fn read_le(b: &[u8], off: usize, w: usize) -> (r: u64)
    requires
        off + w <= b@.len(),
        w <= 8,
    ensures
        r as nat == le_value(b@.subrange(off as int, off + w)),
{
    let blen = b.len();
    let mut v: u64 = 0;
    let mut k = w;
    proof {
        lemma_byte_pow_values();
    }
    while k > 0
        invariant
            k <= w <= 8,
            off + w <= b@.len(),
            blen == b@.len(),
            v as nat == le_value(b@.subrange(off + k, off + w)),
            v < byte_pow((w - k) as nat),
            byte_pow(8) == 0x1_0000_0000_0000_0000,
        decreases k,
    {
        k = k - 1;
        let ghost s = b@.subrange(off + k, off + w);
        assert(s.drop_first() =~= b@.subrange(off + k + 1, off + w));
        proof {
            lemma_byte_pow_mono((w - k - 1) as nat, 7);
            reveal_with_fuel(byte_pow, 9);
        }
        v = v * 256 + b[off + k] as u64;
    }
    v
}

/// Appends the `n` low bytes of `x` to `out`, least significant first.
fn push_le(out: &mut Vec<u8>, x: u64, n: usize)
    ensures
        final(out)@ == old(out)@ + le_bytes(x as nat, n as nat),
    decreases n,
{
    if n > 0 {
        out.push((x % 256) as u8);
        push_le(out, x / 256, n - 1);
        assert(final(out)@ =~= old(out)@ + le_bytes(x as nat, n as nat));
    } else {
        assert(final(out)@ =~= old(out)@ + le_bytes(x as nat, n as nat));
    }
}

/// `e` is what the 24 descriptor bytes `b` say.
pub open spec fn resource_decoded(b: Seq<u8>, e: FileResourceEntry) -> bool {
    &&& e.size as nat == le_value(b.subrange(0, 7))
    &&& e.flags == b[7]
    &&& e.offset as nat == le_value(b.subrange(8, 16))
    &&& e.original_size as nat == le_value(b.subrange(16, 24))
}

/// `h` is what the header bytes `b` say, field by field.
pub open spec fn header_decoded(b: Seq<u8>, h: WimHeader) -> bool {
    &&& h.signature@ == b.subrange(0, 8)
    &&& h.header_size as nat == le_value(b.subrange(8, 12))
    &&& h.format_version as nat == le_value(b.subrange(12, 16))
    &&& h.file_flags as nat == le_value(b.subrange(16, 20))
    &&& h.compressed_size as nat == le_value(b.subrange(20, 24))
    &&& h.guid@ == b.subrange(24, 40)
    &&& h.segment_number as nat == le_value(b.subrange(40, 42))
    &&& h.total_segments as nat == le_value(b.subrange(42, 44))
    &&& h.image_count as nat == le_value(b.subrange(44, 48))
    &&& resource_decoded(b.subrange(48, 72), h.offset_table_resource)
    &&& resource_decoded(b.subrange(72, 96), h.xml_data_resource)
    &&& resource_decoded(b.subrange(96, 120), h.boot_metadata_resource)
    &&& h.bootable_image_index as nat == le_value(b.subrange(120, 124))
    &&& resource_decoded(b.subrange(124, 148), h.integrity_resource)
}

impl FileResourceEntry {
    /// The size fits the seven bytes that hold it on disk.
    pub open spec fn wf(&self) -> bool {
        self.size < 0x100_0000_0000_0000
    }

    /// The 24 bytes that describe this entry on disk.
    pub open spec fn spec_bytes(&self) -> Seq<u8> {
        le_bytes(self.size as nat, 7) + seq![self.flags] + le_bytes(self.offset as nat, 8)
            + le_bytes(self.original_size as nat, 8)
    }

    /// Decodes the descriptor held in `b[off..off + 24]`.
    pub fn decode(b: &[u8], off: usize) -> (r: FileResourceEntry)
        requires
            off + RESOURCE_ENTRY_SIZE <= b@.len(),
        ensures
            resource_decoded(b@.subrange(off as int, off + 24), r),
            r.wf(),
    {
        let ghost s = b@.subrange(off as int, off + 24);
        let blen = b.len();
        assert(off + 24 <= blen);
        let size = read_le(b, off, 7);
        let offset = read_le(b, off + 8, 8);
        let original_size = read_le(b, off + 16, 8);
        proof {
            assert(s.subrange(0, 7) =~= b@.subrange(off as int, off + 7));
            assert(s.subrange(8, 16) =~= b@.subrange(off + 8, off + 16));
            assert(s.subrange(16, 24) =~= b@.subrange(off + 16, off + 24));
            lemma_le_value_bound(s.subrange(0, 7));
            lemma_byte_pow_values();
        }
        FileResourceEntry { size, flags: b[off + 7], offset, original_size }
    }

    /// Appends the 24 bytes of this entry to `out`.
    pub fn encode_into(&self, out: &mut Vec<u8>)
        ensures
            final(out)@ == old(out)@ + self.spec_bytes(),
    {
        push_le(out, self.size, 7);
        out.push(self.flags);
        push_le(out, self.offset, 8);
        push_le(out, self.original_size, 8);
        assert(final(out)@ =~= old(out)@ + self.spec_bytes());
    }

    pub fn is_free(&self) -> (r: bool)
        ensures
            r == (self.flags & ResourceFlags::FREE != 0),
    {
        self.flags & ResourceFlags::FREE != 0
    }

    pub fn is_metadata(&self) -> (r: bool)
        ensures
            r == (self.flags & ResourceFlags::METADATA != 0),
    {
        self.flags & ResourceFlags::METADATA != 0
    }

    pub fn is_compressed(&self) -> (r: bool)
        ensures
            r == (self.flags & ResourceFlags::COMPRESSED != 0),
    {
        self.flags & ResourceFlags::COMPRESSED != 0
    }

    pub fn is_spanned(&self) -> (r: bool)
        ensures
            r == (self.flags & ResourceFlags::SPANNED != 0),
    {
        self.flags & ResourceFlags::SPANNED != 0
    }
}


proof fn lemma_resource_round_trip(e: FileResourceEntry)
    requires
        e.wf(),
    ensures
        e.spec_bytes().len() == 24,
        resource_decoded(e.spec_bytes(), e),
{
    lemma_byte_pow_values();
    lemma_le_bytes(e.size as nat, 7);
    lemma_le_bytes(e.offset as nat, 8);
    lemma_le_bytes(e.original_size as nat, 8);
    let b = e.spec_bytes();
    assert(b.subrange(0, 7) =~= le_bytes(e.size as nat, 7));
    assert(b.subrange(8, 16) =~= le_bytes(e.offset as nat, 8));
    assert(b.subrange(16, 24) =~= le_bytes(e.original_size as nat, 8));
}

impl WimHeader {
    /// Each resource size fits the seven bytes that hold it on disk.
    pub open spec fn wf(&self) -> bool {
        &&& self.offset_table_resource.wf()
        &&& self.xml_data_resource.wf()
        &&& self.boot_metadata_resource.wf()
        &&& self.integrity_resource.wf()
    }

    /// The 204 bytes of this header on disk; the bytes after the last field are zero.
    pub open spec fn spec_bytes(&self) -> Seq<u8> {
        self.signature@ + le_bytes(self.header_size as nat, 4) + le_bytes(
            self.format_version as nat,
            4,
        ) + le_bytes(self.file_flags as nat, 4) + le_bytes(self.compressed_size as nat, 4)
            + self.guid@ + le_bytes(self.segment_number as nat, 2) + le_bytes(
            self.total_segments as nat,
            2,
        ) + le_bytes(self.image_count as nat, 4) + self.offset_table_resource.spec_bytes()
            + self.xml_data_resource.spec_bytes() + self.boot_metadata_resource.spec_bytes()
            + le_bytes(self.bootable_image_index as nat, 4) + self.integrity_resource.spec_bytes()
            + Seq::new(56, |i: int| 0u8)
    }

    /// The signature is the archive magic.
    pub open spec fn signature_ok(&self) -> bool {
        self.signature@ == wim_signature()
    }

    /// Decodes the header fields from the first 204 bytes of `b`, without
    /// checking the signature.
    pub fn decode(b: &[u8]) -> (r: WimHeader)
        requires
            b@.len() >= HEADER_SIZE,
        ensures
            header_decoded(b@, r),
            r.wf(),
    {
        let mut signature = [0u8; 8];
        let mut k: usize = 0;
        while k < 8
            invariant
                k <= 8,
                b@.len() >= 204,
                forall|m: int| 0 <= m < k ==> signature@[m] == b@[m],
            decreases 8 - k,
        {
            signature[k] = b[k];
            k = k + 1;
        }
        let mut guid = [0u8; 16];
        let mut k: usize = 0;
        while k < 16
            invariant
                k <= 16,
                b@.len() >= 204,
                forall|m: int| 0 <= m < k ==> guid@[m] == b@[24 + m],
            decreases 16 - k,
        {
            guid[k] = b[24 + k];
            k = k + 1;
        }
        assert(signature@ =~= b@.subrange(0, 8));
        assert(guid@ =~= b@.subrange(24, 40));
        let offset_table_resource = FileResourceEntry::decode(b, 48);
        let xml_data_resource = FileResourceEntry::decode(b, 72);
        let boot_metadata_resource = FileResourceEntry::decode(b, 96);
        let integrity_resource = FileResourceEntry::decode(b, 124);
        proof {
            lemma_byte_pow_values();
            lemma_le_value_bound(b@.subrange(8, 12));
            lemma_le_value_bound(b@.subrange(12, 16));
            lemma_le_value_bound(b@.subrange(16, 20));
            lemma_le_value_bound(b@.subrange(20, 24));
            lemma_le_value_bound(b@.subrange(40, 42));
            lemma_le_value_bound(b@.subrange(42, 44));
            lemma_le_value_bound(b@.subrange(44, 48));
            lemma_le_value_bound(b@.subrange(120, 124));
        }
        WimHeader {
            signature,
            header_size: read_le(b, 8, 4) as u32,
            format_version: read_le(b, 12, 4) as u32,
            file_flags: read_le(b, 16, 4) as u32,
            compressed_size: read_le(b, 20, 4) as u32,
            guid,
            segment_number: read_le(b, 40, 2) as u16,
            total_segments: read_le(b, 42, 2) as u16,
            image_count: read_le(b, 44, 4) as u32,
            offset_table_resource,
            xml_data_resource,
            boot_metadata_resource,
            bootable_image_index: read_le(b, 120, 4) as u32,
            integrity_resource,
        }
    }

    /// Encodes this header in its 204-byte on-disk layout.
    pub fn to_bytes(&self) -> (r: Vec<u8>)
        ensures
            r@ == self.spec_bytes(),
    {
        let mut out: Vec<u8> = Vec::new();
        let mut k: usize = 0;
        while k < 8
            invariant
                k <= 8,
                out@ == self.signature@.subrange(0, k as int),
            decreases 8 - k,
        {
            out.push(self.signature[k]);
            assert(out@ =~= self.signature@.subrange(0, k + 1));
            k = k + 1;
        }
        push_le(&mut out, self.header_size as u64, 4);
        push_le(&mut out, self.format_version as u64, 4);
        push_le(&mut out, self.file_flags as u64, 4);
        push_le(&mut out, self.compressed_size as u64, 4);
        let ghost before_guid = out@;
        let mut k: usize = 0;
        while k < 16
            invariant
                k <= 16,
                out@ == before_guid + self.guid@.subrange(0, k as int),
            decreases 16 - k,
        {
            out.push(self.guid[k]);
            assert(out@ =~= before_guid + self.guid@.subrange(0, k + 1));
            k = k + 1;
        }
        push_le(&mut out, self.segment_number as u64, 2);
        push_le(&mut out, self.total_segments as u64, 2);
        push_le(&mut out, self.image_count as u64, 4);
        self.offset_table_resource.encode_into(&mut out);
        self.xml_data_resource.encode_into(&mut out);
        self.boot_metadata_resource.encode_into(&mut out);
        push_le(&mut out, self.bootable_image_index as u64, 4);
        self.integrity_resource.encode_into(&mut out);
        let ghost before_pad = out@;
        let mut k: usize = 0;
        while k < 56
            invariant
                k <= 56,
                out@ == before_pad + Seq::new(k as nat, |i: int| 0u8),
            decreases 56 - k,
        {
            out.push(0u8);
            assert(out@ =~= before_pad + Seq::new((k + 1) as nat, |i: int| 0u8));
            k = k + 1;
        }
        assert(self.signature@.subrange(0, 8) =~= self.signature@);
        assert(self.guid@.subrange(0, 16) =~= self.guid@);
        assert(out@ =~= self.spec_bytes());
        out
    }

    /// Checks the signature against the archive magic.
    pub fn has_valid_signature(&self) -> (r: bool)
        ensures
            r == self.signature_ok(),
    {
        let magic: [u8; 8] = [0x4d, 0x53, 0x57, 0x49, 0x4d, 0, 0, 0];
        let mut k: usize = 0;
        while k < 8
            invariant
                k <= 8,
                magic@ == wim_signature(),
                forall|m: int| 0 <= m < k ==> self.signature@[m] == magic@[m],
            decreases 8 - k,
        {
            if self.signature[k] != magic[k] {
                return false;
            }
            k = k + 1;
        }
        assert(self.signature@ =~= wim_signature());
        true
    }

    /// The archive's flags mark its resources as compressed.
    pub fn is_compressed(&self) -> (r: bool)
        ensures
            r == (self.file_flags & FileFlags::COMPRESSION != 0),
    {
        self.file_flags & FileFlags::COMPRESSION != 0
    }

    /// The compression scheme that the flags name: XPRESS is checked first,
    /// then LZX, then the generic compression bit ("Unknown").
    pub fn compression_type(&self) -> (r: Option<&'static str>)
        ensures
            self.file_flags & FileFlags::COMPRESS_XPRESS != 0 ==> r == Some("XPRESS"),
            self.file_flags & FileFlags::COMPRESS_XPRESS == 0 && self.file_flags
                & FileFlags::COMPRESS_LZX != 0 ==> r == Some("LZX"),
            self.file_flags & FileFlags::COMPRESS_XPRESS == 0 && self.file_flags
                & FileFlags::COMPRESS_LZX == 0 && self.file_flags & FileFlags::COMPRESSION != 0
                ==> r == Some("Unknown"),
            self.file_flags & FileFlags::COMPRESS_XPRESS == 0 && self.file_flags
                & FileFlags::COMPRESS_LZX == 0 && self.file_flags & FileFlags::COMPRESSION == 0
                ==> r is None,
    {
        if self.file_flags & FileFlags::COMPRESS_XPRESS != 0 {
            Some("XPRESS")
        } else if self.file_flags & FileFlags::COMPRESS_LZX != 0 {
            Some("LZX")
        } else if self.file_flags & FileFlags::COMPRESSION != 0 {
            Some("Unknown")
        } else {
            None
        }
    }
}

/// Encoding a header and decoding the bytes gives back every field, the
/// seven-byte resource sizes included.
pub proof fn lemma_header_round_trip(h: WimHeader)
    requires
        h.wf(),
    ensures
        h.spec_bytes().len() == HEADER_SIZE,
        header_decoded(h.spec_bytes(), h),
{
    lemma_byte_pow_values();
    lemma_resource_round_trip(h.offset_table_resource);
    lemma_resource_round_trip(h.xml_data_resource);
    lemma_resource_round_trip(h.boot_metadata_resource);
    lemma_resource_round_trip(h.integrity_resource);
    lemma_le_bytes(h.header_size as nat, 4);
    lemma_le_bytes(h.format_version as nat, 4);
    lemma_le_bytes(h.file_flags as nat, 4);
    lemma_le_bytes(h.compressed_size as nat, 4);
    lemma_le_bytes(h.segment_number as nat, 2);
    lemma_le_bytes(h.total_segments as nat, 2);
    lemma_le_bytes(h.image_count as nat, 4);
    lemma_le_bytes(h.bootable_image_index as nat, 4);
    let b = h.spec_bytes();
    assert(b.len() == 204);
    assert(b.subrange(0, 8) =~= h.signature@);
    assert(b.subrange(8, 12) =~= le_bytes(h.header_size as nat, 4));
    assert(b.subrange(12, 16) =~= le_bytes(h.format_version as nat, 4));
    assert(b.subrange(16, 20) =~= le_bytes(h.file_flags as nat, 4));
    assert(b.subrange(20, 24) =~= le_bytes(h.compressed_size as nat, 4));
    assert(b.subrange(24, 40) =~= h.guid@);
    assert(b.subrange(40, 42) =~= le_bytes(h.segment_number as nat, 2));
    assert(b.subrange(42, 44) =~= le_bytes(h.total_segments as nat, 2));
    assert(b.subrange(44, 48) =~= le_bytes(h.image_count as nat, 4));
    assert(b.subrange(48, 72) =~= h.offset_table_resource.spec_bytes());
    assert(b.subrange(72, 96) =~= h.xml_data_resource.spec_bytes());
    assert(b.subrange(96, 120) =~= h.boot_metadata_resource.spec_bytes());
    assert(b.subrange(120, 124) =~= le_bytes(h.bootable_image_index as nat, 4));
    assert(b.subrange(124, 148) =~= h.integrity_resource.spec_bytes());
}

} // verus!
