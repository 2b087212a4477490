use wim_parser::{
    extract_version_and_arch, FileResourceEntry, FormatFailure, IoFailure, WimError, WimHeader,
    WimParser,
};

const MAGIC: [u8; 8] = [0x4d, 0x53, 0x57, 0x49, 0x4d, 0, 0, 0];

fn entry(size: u64, flags: u8, offset: u64, original_size: u64) -> FileResourceEntry {
    FileResourceEntry { size, flags, offset, original_size }
}

fn sample_header(xml_offset: u64, xml_size: u64) -> WimHeader {
    let mut guid = [0u8; 16];
    for (i, b) in guid.iter_mut().enumerate() {
        *b = (i as u8) * 7 + 1;
    }
    WimHeader {
        signature: MAGIC,
        header_size: 208,
        format_version: 0x10d00,
        file_flags: 0x0002_0082,
        compressed_size: 0x8000,
        guid,
        segment_number: 1,
        total_segments: 1,
        image_count: 2,
        offset_table_resource: entry(0x1234, 0x02, 0xdead_beef, 0x1234),
        xml_data_resource: entry(xml_size, 0x00, xml_offset, xml_size),
        boot_metadata_resource: entry(0, 0, 0, 0),
        bootable_image_index: 1,
        integrity_resource: entry((1u64 << 56) - 1, 0x0f, u64::MAX, u64::MAX - 1),
    }
}

fn utf16_with_bom(text: &str) -> Vec<u8> {
    let mut out = vec![0xFF, 0xFE];
    for u in text.encode_utf16() {
        out.push((u & 0xff) as u8);
        out.push((u >> 8) as u8);
    }
    out
}

const TWO_IMAGES: &str = "<WIM><IMAGE INDEX=\"1\"><DIRCOUNT>10</DIRCOUNT><FILECOUNT>20</FILECOUNT>\
<TOTALBYTES>1000</TOTALBYTES><WINDOWS><ARCH>9</ARCH></WINDOWS>\
<DISPLAYNAME>Windows 11 Pro</DISPLAYNAME></IMAGE>\
<IMAGE INDEX=\"2\"><TOTALBYTES>2000</TOTALBYTES><WINDOWS><ARCH>0</ARCH></WINDOWS>\
<DISPLAYNAME>Windows 10 Home</DISPLAYNAME></IMAGE></WIM>";

fn loaded(text: &str) -> WimParser {
    let xml = utf16_with_bom(text);
    let header = sample_header(204, xml.len() as u64);
    let mut archive = header.to_bytes();
    archive.extend_from_slice(&xml);
    let mut parser = WimParser::new_for_test();
    parser.decode_header(&archive[..204]).unwrap();
    let (offset, len) = parser.xml_data_location().unwrap();
    let start = offset as usize;
    parser.load_xml_data(&archive[start..start + len]).unwrap();
    parser
}

#[test]
fn header_round_trip_keeps_every_field() {
    let header = sample_header(0x1_0000, 0x00ff_ffff_ffff_ffff);
    let bytes = header.to_bytes();
    assert_eq!(bytes.len(), 204);
    assert_eq!(&bytes[0..8], &MAGIC);
    let decoded = WimHeader::decode(&bytes);
    assert_eq!(decoded, header);
    assert_eq!(decoded.integrity_resource.size, (1u64 << 56) - 1);
    assert_eq!(decoded.xml_data_resource.size, 0x00ff_ffff_ffff_ffff);
    assert_eq!(decoded.integrity_resource.flags, 0x0f);
}

#[test]
fn header_fields_read_little_endian() {
    let mut bytes = vec![0u8; 204];
    bytes[..8].copy_from_slice(&MAGIC);
    bytes[8..12].copy_from_slice(&[0xd0, 0, 0, 0]);
    bytes[44..48].copy_from_slice(&[3, 1, 0, 0]);
    bytes[40..42].copy_from_slice(&[0x34, 0x12]);
    bytes[72..79].copy_from_slice(&[1, 2, 3, 4, 5, 6, 7]);
    bytes[79] = 0x04;
    bytes[80..88].copy_from_slice(&[0x10, 0, 0, 0, 0, 0, 0, 0x80]);
    let h = WimHeader::decode(&bytes);
    assert_eq!(h.header_size, 0xd0);
    assert_eq!(h.image_count, 0x103);
    assert_eq!(h.segment_number, 0x1234);
    assert_eq!(h.xml_data_resource.size, 0x0007_0605_0403_0201);
    assert_eq!(h.xml_data_resource.flags, 0x04);
    assert!(h.xml_data_resource.is_compressed());
    assert!(!h.xml_data_resource.is_free());
    assert_eq!(h.xml_data_resource.offset, 0x8000_0000_0000_0010);
    assert!(h.has_valid_signature());
}

#[test]
fn header_decoded_once_and_cached() {
    let header = sample_header(204, 16);
    let bytes = header.to_bytes();
    let mut parser = WimParser::new_for_test();
    assert!(parser.needs_header());
    let first = parser.decode_header(&bytes).unwrap();
    assert!(!parser.needs_header());
    let mut other = bytes.clone();
    other[44] = 99;
    let second = parser.decode_header(&other).unwrap();
    assert_eq!(first, second);
    assert_eq!(parser.get_image_count(), 2);
    assert!(parser.has_multiple_images());
}

#[test]
fn corrupted_signature_is_format_error_and_not_cached() {
    let mut bytes = sample_header(204, 16).to_bytes();
    bytes[2] = b'X';
    let mut parser = WimParser::new_for_test();
    let r = parser.decode_header(&bytes);
    assert_eq!(r, Err(WimError::Format(FormatFailure::InvalidSignature)));
    assert!(r.unwrap_err().is_format());
    assert!(parser.get_header().is_none());
    assert!(parser.needs_header());
    assert_eq!(parser.get_image_count(), 0);
}

#[test]
fn short_header_is_io_error() {
    let bytes = sample_header(204, 16).to_bytes();
    let mut parser = WimParser::new_for_test();
    let r = parser.decode_header(&bytes[..100]);
    assert_eq!(r, Err(WimError::Io(IoFailure::ShortHeader)));
    assert!(r.unwrap_err().is_io());
    assert!(parser.needs_header());
}

#[test]
fn zero_size_xml_resource_is_format_error() {
    let bytes = sample_header(204, 0).to_bytes();
    let mut parser = WimParser::new_for_test();
    parser.decode_header(&bytes).unwrap();
    assert_eq!(
        parser.xml_data_location(),
        Err(WimError::Format(FormatFailure::MissingXmlData))
    );
    assert!(parser.get_images().is_empty());
    assert!(parser.get_header().is_some());
    assert_eq!(parser.get_header().unwrap().image_count, 2);
}

#[test]
fn two_image_archive_end_to_end() {
    let parser = loaded(TWO_IMAGES);
    let images = parser.get_images();
    assert_eq!(images.len(), 2);
    assert_eq!(images[0].index, 1);
    assert_eq!(images[0].architecture, Some("x64".to_string()));
    assert_eq!(images[0].version, Some("Windows 11".to_string()));
    assert_eq!(images[0].dir_count, 10);
    assert_eq!(images[0].file_count, 20);
    assert_eq!(images[0].total_bytes, 1000);
    assert_eq!(images[0].description, "Unknown");
    assert_eq!(images[1].index, 2);
    assert_eq!(images[1].architecture, Some("x86".to_string()));
    assert_eq!(images[1].version, Some("Windows 10".to_string()));
    assert_eq!(parser.get_primary_version(), Some("Windows 11".to_string()));
    assert_eq!(parser.get_primary_architecture(), Some("x64".to_string()));
    let info = parser.get_windows_info().unwrap();
    assert_eq!(info.version, "Windows 11");
    assert_eq!(info.architecture, "x64");
    assert_eq!(info.editions, vec!["Pro".to_string(), "Home".to_string()]);
    assert_eq!(info.image_count, 2);
    assert_eq!(info.total_size, 3000);
    assert_eq!(parser.get_image(2).unwrap().name, "Windows 10 Home");
    assert!(parser.get_image(3).is_none());
}

#[test]
fn primary_labels_follow_frequency() {
    let text = "<IMAGE INDEX=\"1\"><DISPLAYNAME>Windows 10 Home x86</DISPLAYNAME></IMAGE>\
<IMAGE INDEX=\"2\"><DISPLAYNAME>Windows 11 Pro amd64</DISPLAYNAME></IMAGE>\
<IMAGE INDEX=\"3\"><DISPLAYNAME>Windows 11 Education arm64</DISPLAYNAME></IMAGE>";
    let parser = loaded(text);
    assert_eq!(parser.get_primary_version(), Some("Windows 11".to_string()));
    assert_eq!(parser.get_primary_architecture(), Some("x86".to_string()));
    let info = parser.get_windows_info().unwrap();
    assert_eq!(
        info.editions,
        vec!["Home".to_string(), "Pro".to_string(), "Education".to_string()]
    );
    assert_eq!(info.architecture, "x86");
}

#[test]
fn no_summary_without_windows_version() {
    let text = "<IMAGE INDEX=\"1\"><DISPLAYNAME>Linux x64</DISPLAYNAME></IMAGE>";
    let parser = loaded(text);
    assert_eq!(parser.get_primary_version(), None);
    assert_eq!(parser.get_primary_architecture(), Some("x64".to_string()));
    assert!(parser.get_windows_info().is_none());
    let empty = WimParser::new_for_test();
    assert!(empty.get_windows_info().is_none());
    assert_eq!(empty.get_primary_version(), None);
}

#[test]
fn summary_needs_an_architecture() {
    let text = "<IMAGE INDEX=\"1\"><DISPLAYNAME>Windows 11 Pro</DISPLAYNAME></IMAGE>";
    let parser = loaded(text);
    assert_eq!(parser.get_primary_version(), Some("Windows 11".to_string()));
    assert!(parser.get_windows_info().is_none());
}

#[test]
fn version_and_architecture_queries_ignore_case() {
    let parser = loaded(TWO_IMAGES);
    assert!(parser.has_version("WINDOWS 11"));
    assert!(parser.has_version("windows 10"));
    assert!(!parser.has_version("server"));
    assert!(parser.has_architecture("X64"));
    assert!(!parser.has_architecture("arm"));
}

#[test]
fn version_summary_lines() {
    let parser = loaded(TWO_IMAGES);
    assert_eq!(
        parser.get_version_summary(),
        vec![
            "镜像 1: Windows 11 Pro (Windows 11) [x64]".to_string(),
            "镜像 2: Windows 10 Home (Windows 10) [x86]".to_string(),
        ]
    );
}

#[test]
fn unmatched_image_tag_stops_the_scan() {
    let text = "<IMAGE INDEX=\"4\"><DISPLAYNAME>A</DISPLAYNAME></IMAGE><IMAGE INDEX=\"5\">";
    let parser = loaded(text);
    assert_eq!(parser.get_images().len(), 1);
    assert_eq!(parser.get_images()[0].index, 4);
    let none = loaded("<WIM></WIM>");
    assert!(none.get_images().is_empty());
}

#[test]
fn xml_data_errors() {
    let mut parser = WimParser::new_for_test();
    assert_eq!(
        parser.load_xml_data(&[0xFF]),
        Err(WimError::Format(FormatFailure::XmlTooShort))
    );
    assert_eq!(
        parser.load_xml_data(&[0xFE, 0xFF, 0x41, 0x00]),
        Err(WimError::Format(FormatFailure::InvalidBom))
    );
    assert_eq!(
        parser.load_xml_data(&[0xFF, 0xFE, 0x41]),
        Err(WimError::Format(FormatFailure::OddUtf16Length))
    );
    let r = parser.load_xml_data(&[0xFF, 0xFE, 0x00, 0xD8, 0x41, 0x00]);
    assert_eq!(r, Err(WimError::Decode));
    assert!(r.unwrap_err().is_decode());
    assert!(parser.get_images().is_empty());
    assert_eq!(parser.load_xml_data(&[0xFF, 0xFE]), Ok(()));
}

#[test]
fn surrogate_pairs_decode() {
    let parser = loaded("<IMAGE INDEX=\"1\"><DISPLAYNAME>Windows 😀 x64</DISPLAYNAME></IMAGE>");
    assert_eq!(parser.get_images()[0].name, "Windows 😀 x64");
    assert_eq!(parser.get_images()[0].version, Some("Windows".to_string()));
}

#[test]
fn failed_xml_load_keeps_images() {
    let mut parser = loaded(TWO_IMAGES);
    assert!(parser.load_xml_data(&[0x00, 0x00]).is_err());
    assert_eq!(parser.get_images().len(), 2);
}

#[test]
fn fields_default_when_missing_or_malformed() {
    let parser = WimParser::new_for_test();
    let img = parser
        .parse_single_image_xml("<IMAGE><DIRCOUNT>abc</DIRCOUNT><FILECOUNT>-3</FILECOUNT></IMAGE>")
        .unwrap();
    assert_eq!(img.index, 0);
    assert_eq!(img.name, "Image 0");
    assert_eq!(img.description, "Unknown");
    assert_eq!(img.dir_count, 0);
    assert_eq!(img.file_count, 0);
    assert_eq!(img.total_bytes, 0);
    assert_eq!(img.creation_time, None);
    assert_eq!(img.last_modification_time, None);
    assert_eq!(img.version, None);
    assert_eq!(img.architecture, None);

    let img = parser
        .parse_single_image_xml("<IMAGE INDEX=\"42\"><DIRCOUNT> +7 </DIRCOUNT><FILECOUNT>4294967296</FILECOUNT><TOTALBYTES>\n18446744073709551615\t</TOTALBYTES></IMAGE>")
        .unwrap();
    assert_eq!(img.index, 42);
    assert_eq!(img.name, "Image 42");
    assert_eq!(img.dir_count, 7);
    assert_eq!(img.file_count, 0);
    assert_eq!(img.total_bytes, u64::MAX);

    let img = parser
        .parse_single_image_xml("<IMAGE INDEX=\"x\"><DISPLAYNAME></DISPLAYNAME><DISPLAYDESCRIPTION>  d  </DISPLAYDESCRIPTION></IMAGE>")
        .unwrap();
    assert_eq!(img.index, 0);
    assert_eq!(img.name, "Image 0");
    assert_eq!(img.description, "d");
}

#[test]
fn close_tag_before_open_tag_is_absent() {
    let parser = WimParser::new_for_test();
    let img = parser
        .parse_single_image_xml("<IMAGE INDEX=\"3\"></DISPLAYNAME>x<DISPLAYNAME>Windows 10</IMAGE>")
        .unwrap();
    assert_eq!(img.name, "Image 3");
    assert_eq!(img.version, None);
}

#[test]
fn server_2019_beats_generic_server() {
    let (version, arch) = extract_version_and_arch("Windows Server 2019 Pro", "");
    assert_eq!(version, Some("Windows Server 2019".to_string()));
    assert_eq!(arch, None);
    let (version, _) = extract_version_and_arch("WINDOWS SERVER", "Datacenter");
    assert_eq!(version, Some("Windows Server".to_string()));
    let (version, arch) = extract_version_and_arch("Windows Server 2022", "AMD64 build");
    assert_eq!(version, Some("Windows Server 2022".to_string()));
    assert_eq!(arch, Some("x64".to_string()));
}

#[test]
fn name_heuristic_order() {
    assert_eq!(extract_version_and_arch("x86 and x64", "").1, Some("x64".to_string()));
    assert_eq!(extract_version_and_arch("X86", "").1, Some("x86".to_string()));
    assert_eq!(extract_version_and_arch("Pro", "ARM64").1, Some("ARM64".to_string()));
    assert_eq!(extract_version_and_arch("Windows", "").0, Some("Windows".to_string()));
}

#[test]
fn compression_flags() {
    let mut header = sample_header(204, 16);
    let mut parser = WimParser::new_for_test();
    assert!(!parser.is_compressed());
    assert_eq!(parser.get_compression_type(), None);
    parser.decode_header(&header.to_bytes()).unwrap();
    assert!(parser.is_compressed());
    assert_eq!(parser.get_compression_type(), Some("XPRESS"));
    header.file_flags = 0x0004_0002;
    assert_eq!(header.compression_type(), Some("LZX"));
    header.file_flags = 0x0000_0002;
    assert_eq!(header.compression_type(), Some("Unknown"));
    assert!(header.is_compressed());
    header.file_flags = 0x0000_0004;
    assert_eq!(header.compression_type(), None);
    assert!(!header.is_compressed());
}
