use unidl::torrent::{torrent_files, torrent_info_hash, BencodeError, Parser, TorrentError};

fn sha1(bytes: &[u8]) -> String {
    sha1_smol::Sha1::from(bytes).digest().to_string()
}

#[test]
fn single_file_torrent_lists_its_name() {
    let bytes = b"d8:announce3:url4:infod6:lengthi42e4:name8:file.bin12:piece lengthi16384eee";
    let files = torrent_files(bytes).ok().expect("torrent should parse");
    assert_eq!(files.len(), 1);
    assert_eq!(files[0].index, 1);
    assert_eq!(files[0].path, "file.bin");
    assert_eq!(files[0].length, 42);
    let info = b"d6:lengthi42e4:name8:file.bin12:piece lengthi16384ee";
    assert_eq!(torrent_info_hash(bytes).ok(), Some(sha1(info)));
}

#[test]
fn multi_file_torrent_joins_paths() {
    let bytes = b"d4:infod5:filesld6:lengthi1e4:pathl5:album5:a.mp3eed6:lengthi2e4:pathl1:beee4:name5:albumee";
    let files = torrent_files(bytes).ok().expect("torrent should parse");
    assert_eq!(files.len(), 2);
    assert_eq!(files[0].path, "album/a.mp3");
    assert_eq!(files[0].length, 1);
    assert_eq!(files[1].index, 2);
    assert_eq!(files[1].path, "b");
}

#[test]
fn info_hash_covers_the_info_bytes_exactly() {
    let bytes = b"d4:infod4:name3:abce3:zzzi1ee";
    assert_eq!(torrent_info_hash(bytes).ok(), Some(sha1(b"d4:name3:abce")));
    assert_eq!(sha1(b"abc"), "a9993e364706816aba3e25717850c26c9cd0d89d");
}

#[test]
fn broken_torrents_are_reported() {
    let message = |bytes: &[u8]| torrent_files(bytes).err().expect("should fail").message();
    assert_eq!(message(b"le"), "torrent root must be a dictionary");
    assert_eq!(message(b"de"), "torrent info is missing");
    assert_eq!(message(b"d4:infoi1ee"), "torrent info must be a dictionary");
    assert_eq!(message(b"d4:infod5:filesi1eee"), "torrent files must be a list");
    assert_eq!(message(b"d4:infod4:name1:aee"), "torrent length is missing");
    assert_eq!(message(b"d4:infod4:namei1eee"), "torrent name must be bytes");
    assert_eq!(message(b"d4:infod5:filesli1eeee"), "torrent file entry must be a dictionary");
    assert_eq!(message(b"d4:info"), "unexpected end of bencode input");
    assert_eq!(message(b"x"), "invalid bencode byte: 120");
    assert_eq!(message(b"d4:infod4:name9:abcee"), "bencode byte string exceeds input");
    assert!(matches!(torrent_info_hash(b"d4:name1:ae"), Err(TorrentError::InfoMissing)));
    assert_eq!(BencodeError::Expected(101).message(b""), "expected bencode byte: 101");
}

#[test]
fn bad_numbers_are_reported_in_the_standard_library_words() {
    let message = |bytes: &[u8]| torrent_files(bytes).err().expect("should fail").message();
    assert_eq!(message(b"ie"), "cannot parse integer from empty string");
    assert_eq!(message(b"i12ae"), "invalid digit found in string");
    assert_eq!(message(b"i99999999999999999999e"), "number too large to fit in target type");
    assert_eq!(message(b"i-99999999999999999999e"), "number too small to fit in target type");
    assert_eq!(message(b"i\xFFe"), std::str::from_utf8(b"\xFF").unwrap_err().to_string());
    assert_eq!(
        message(b"d4:info99999999999999999999999:"),
        "number too large to fit in target type"
    );
    let mut parser = Parser::new(b"i1x2e");
    assert_eq!(parser.parse_integer().err(), Some(BencodeError::InvalidInteger(1, 4)));
    assert_eq!(BencodeError::InvalidInteger(1, 4).message(b"i1x2e"), "invalid digit found in string");
}

#[test]
fn parser_reads_values() {
    let mut parser = Parser::new(b"i-42e");
    assert!(parser.parse_integer().is_ok());
    let mut parser = Parser::new(b"3:abc");
    assert_eq!(parser.parse_bytes().ok(), Some(b"abc".to_vec()));
    let mut parser = Parser::new(b"4a:b");
    assert!(matches!(parser.parse_bytes(), Err(BencodeError::LengthNotNumeric)));
}
