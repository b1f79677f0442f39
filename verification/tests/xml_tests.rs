use patch_mirror::xml::{parse_xml, sanitize_content};

#[test]
fn test_parse_xml() {
    let xml_content = r#"
            <LatestFileList>
                <Zafaria-ZF_Z13_Mirror_Lake_Drained>
                    <RECORD>
                        <SrcFileName>Data/GameData/Zafaria-ZF_Z13_Mirror_Lake_Drained.wad</SrcFileName>
                        <TarFileName></TarFileName>
                        <FileType>3</FileType>
                        <Size>410066</Size>
                        <HeaderSize>993</HeaderSize>
                        <CompressedHeaderSize>699</CompressedHeaderSize>
                        <CRC>3587946300</CRC>
                        <HeaderCRC>3214041276</HeaderCRC>
                    </RECORD>
                </Zafaria-ZF_Z13_Mirror_Lake_Drained>
                <_Shared-WorldData>
                    <RECORD>
                        <SrcFileName>Data/GameData/_Shared-WorldData.wad</SrcFileName>
                        <TarFileName></TarFileName>
                        <FileType>3</FileType>
                        <Size>503228191</Size>
                        <HeaderSize>1821164</HeaderSize>
                        <CompressedHeaderSize>583258</CompressedHeaderSize>
                        <CRC>10566522</CRC>
                        <HeaderCRC>1108099465</HeaderCRC>
                    </RECORD>
                </_Shared-WorldData>
            </LatestFileList>
        "#;

    let (wads, utils) = parse_xml(xml_content).unwrap();
    assert_eq!(wads.len(), 2);
    assert_eq!(utils.len(), 0);
    assert_eq!(wads[0].filename, "Data/GameData/Zafaria-ZF_Z13_Mirror_Lake_Drained.wad");
    assert_eq!(wads[1].filename, "Data/GameData/_Shared-WorldData.wad");
}

#[test]
fn test_parse_xml_record_fields() {
    let xml = "<LatestFileList><Z><RECORD>\
        <SrcFileName>a.wad</SrcFileName><FileType>3</FileType><Size>410066</Size>\
        <HeaderSize>993</HeaderSize><CompressedHeaderSize>699</CompressedHeaderSize>\
        <CRC>3587946300</CRC><HeaderCRC>3214041276</HeaderCRC>\
        </RECORD></Z></LatestFileList>";
    let (wads, utils) = parse_xml(xml).unwrap();
    assert_eq!(wads.len(), 1);
    assert_eq!(utils.len(), 0);
    let a = &wads[0];
    assert_eq!(a.filename, "a.wad");
    assert_eq!(a.file_type, "3");
    assert_eq!(a.size, 410066);
    assert_eq!(a.header_size, 993);
    assert_eq!(a.compressed_header_size, 699);
    assert_eq!(a.crc, 3587946300);
    assert_eq!(a.header_crc, 3214041276);
}

#[test]
fn test_sanitize_drops_table_list() {
    let xml = "<LatestFileList><Z><RECORD><SrcFileName>a.wad</SrcFileName>\
        <Size>10</Size><CRC>1</CRC></RECORD></Z><_TableList><x/></_TableList>\
        </LatestFileList>";
    let sanitized = sanitize_content(xml).unwrap();
    assert_eq!(
        sanitized,
        "<?xml version=\"1.0\" ?>\n<LatestFileList>\n\
         <Z><RECORD><SrcFileName>a.wad</SrcFileName><Size>10</Size><CRC>1</CRC></RECORD></Z>\n\
         </LatestFileList>"
    );

    let (wads, utils) = parse_xml(sanitized.as_str()).unwrap();
    assert_eq!(wads.len(), 1);
    assert_eq!(utils.len(), 0);
    assert_eq!(wads[0].filename, "a.wad");
    assert_eq!(wads[0].size, 10);
    assert_eq!(wads[0].crc, 1);
    assert_eq!(wads[0].file_type, "");
    assert_eq!(wads[0].header_size, 0);
    assert_eq!(wads[0].compressed_header_size, 0);
    assert_eq!(wads[0].header_crc, 0);
}

#[test]
fn test_sanitize_matches_raw_parse() {
    // parsing the raw or the sanitised form yields the same inventory
    let xml = "<?xml version=\"1.0\" ?><LatestFileList>\
        <Z1><RECORD><SrcFileName>a.wad</SrcFileName><Size>10</Size><CRC>1</CRC></RECORD></Z1>\
        <Z2><RECORD><SrcFileName>b/c.txt</SrcFileName><Size>20</Size><CRC>2</CRC></RECORD></Z2>\
        </LatestFileList>";
    let (raw_wads, raw_utils) = parse_xml(xml).unwrap();
    let sanitized = sanitize_content(xml).unwrap();
    let (san_wads, san_utils) = parse_xml(sanitized.as_str()).unwrap();
    assert_eq!(raw_wads.len(), san_wads.len());
    assert_eq!(raw_utils.len(), san_utils.len());
    for (a, b) in raw_wads.iter().zip(san_wads.iter()) {
        assert_eq!(a.filename, b.filename);
        assert_eq!(a.size, b.size);
        assert_eq!(a.crc, b.crc);
    }
    for (a, b) in raw_utils.iter().zip(san_utils.iter()) {
        assert_eq!(a.filename, b.filename);
        assert_eq!(a.size, b.size);
        assert_eq!(a.crc, b.crc);
    }
}

#[test]
fn test_parse_xml_attributes_and_comments() {
    let xml = "<LatestFileList><Z kind=\"zone\"><!-- note -->\
        <RECORD><SrcFileName TYPE=\"STR\">u.dat</SrcFileName><Size TYPE=\"UINT\">7</Size></RECORD>\
        </Z></LatestFileList>";
    let (wads, utils) = parse_xml(xml).unwrap();
    assert_eq!(wads.len(), 0);
    assert_eq!(utils.len(), 1);
    assert_eq!(utils[0].filename, "u.dat");
    assert_eq!(utils[0].size, 7);
}

#[test]
fn test_parse_xml_malformed() {
    assert!(parse_xml("<LatestFileList><Z></LatestFileList>").is_err());
    assert!(parse_xml("no markup at all").is_err());
    assert!(parse_xml("").is_err());
}
