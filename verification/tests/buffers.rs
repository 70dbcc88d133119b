use unitypackage::manifest::Manifest;
use unitypackage::package::read_text;
use unitypackage::spool::{SpooledBuffer, MAX_ASSET_MEM};
use unitypackage::upm::member_name;

#[test]
fn the_ceiling_is_thirty_two_mebibytes() {
    assert_eq!(MAX_ASSET_MEM, 33_554_432);
}

#[test]
fn a_new_buffer_is_empty_and_in_memory() {
    let mut buffer = SpooledBuffer::new();
    assert!(!buffer.is_spilled());
    assert_eq!(buffer.read_to_end().unwrap(), Vec::<u8>::new());
    assert_eq!(buffer.read(16).unwrap(), Vec::<u8>::new());
}

#[test]
fn what_is_written_is_read_back_after_a_rewind() {
    let mut buffer = SpooledBuffer::new();
    buffer.write(b"hello ").unwrap();
    buffer.write(b"").unwrap();
    buffer.write(b"world").unwrap();
    assert_eq!(buffer.read_to_end().unwrap(), Vec::<u8>::new());
    buffer.rewind().unwrap();
    assert_eq!(buffer.read_to_end().unwrap(), b"hello world".to_vec());
    assert_eq!(buffer.read_to_end().unwrap(), Vec::<u8>::new());
    buffer.rewind().unwrap();
    assert_eq!(buffer.read_to_end().unwrap(), b"hello world".to_vec());
    assert!(!buffer.is_spilled());
}

#[test]
fn read_hands_out_at_most_the_limit_and_moves_on() {
    let mut buffer = SpooledBuffer::holding(b"abcdefgh").unwrap();
    assert_eq!(buffer.read(3).unwrap(), b"abc".to_vec());
    assert_eq!(buffer.read(0).unwrap(), Vec::<u8>::new());
    assert_eq!(buffer.read(3).unwrap(), b"def".to_vec());
    assert_eq!(buffer.read(3).unwrap(), b"gh".to_vec());
    assert_eq!(buffer.read(3).unwrap(), Vec::<u8>::new());
}

#[test]
fn reading_in_chunks_gives_the_whole_content() {
    let data: Vec<u8> = (0..70_000u32).map(|i| (i * 7 % 256) as u8).collect();
    let mut buffer = SpooledBuffer::holding(&data).unwrap();
    let mut all = Vec::new();
    loop {
        let chunk = buffer.read(4096).unwrap();
        if chunk.is_empty() {
            break;
        }
        assert!(chunk.len() <= 4096);
        all.extend_from_slice(&chunk);
    }
    assert_eq!(all, data);
}

#[test]
fn holding_is_ready_to_be_read_from_the_start() {
    let mut buffer = SpooledBuffer::holding(b"AAA").unwrap();
    assert!(!buffer.is_spilled());
    assert_eq!(buffer.read_to_end().unwrap(), b"AAA".to_vec());
    let mut empty = SpooledBuffer::holding(b"").unwrap();
    assert_eq!(empty.read_to_end().unwrap(), Vec::<u8>::new());
}

#[test]
fn a_buffer_stays_in_memory_up_to_the_ceiling() {
    let data = vec![7u8; MAX_ASSET_MEM];
    let mut buffer = SpooledBuffer::new();
    buffer.write(&data).unwrap();
    assert!(!buffer.is_spilled());
    buffer.rewind().unwrap();
    assert_eq!(buffer.read(5).unwrap(), vec![7u8; 5]);
}

#[test]
fn an_empty_write_at_the_ceiling_moves_nothing() {
    let mut buffer = SpooledBuffer::new();
    buffer.write(&vec![9u8; MAX_ASSET_MEM]).unwrap();
    buffer.write(b"").unwrap();
    assert!(!buffer.is_spilled());
}

#[test]
fn holding_more_than_the_ceiling_is_on_disk() {
    let data = vec![5u8; MAX_ASSET_MEM + 1];
    if let Ok(mut buffer) = SpooledBuffer::holding(&data) {
        assert!(buffer.is_spilled());
        assert_eq!(buffer.read(4).unwrap(), vec![5u8; 4]);
    }
}

#[test]
fn a_buffer_beyond_the_ceiling_moves_to_a_file_and_keeps_its_bytes() {
    let mut buffer = SpooledBuffer::new();
    let first = vec![1u8; MAX_ASSET_MEM - 1];
    buffer.write(&first).unwrap();
    assert!(!buffer.is_spilled());
    if buffer.write(&[2u8, 3u8]).is_ok() {
        assert!(buffer.is_spilled());
        buffer.rewind().unwrap();
        let back = buffer.read_to_end().unwrap();
        assert_eq!(back.len(), MAX_ASSET_MEM + 1);
        assert_eq!(&back[..MAX_ASSET_MEM - 1], &first[..]);
        assert_eq!(&back[MAX_ASSET_MEM - 1..], &[2u8, 3u8]);
    }
}

#[test]
fn read_text_reads_what_is_text() {
    assert_eq!(read_text(b"Assets/Foo/Bar.txt"), Some("Assets/Foo/Bar.txt".to_string()));
    assert_eq!(read_text(b""), Some(String::new()));
    assert_eq!(read_text("日本語".as_bytes()), Some("日本語".to_string()));
    assert_eq!(read_text(&[0xf0, 0x9f, 0x92, 0x96]), Some("\u{1f496}".to_string()));
}

#[test]
fn read_text_refuses_what_is_no_text() {
    assert_eq!(read_text(&[0xff]), None);
    assert_eq!(read_text(&[b'A', 0x80]), None);
    assert_eq!(read_text(&[0xc0, 0xaf]), None);
    assert_eq!(read_text(&[0xed, 0xa0, 0x80]), None);
    assert_eq!(read_text(&[0xe3, 0x81]), None);
}

#[test]
fn the_prefix_is_name_at_version() {
    let manifest = Manifest { name: "com.example.tool", version: "1.2.3" };
    assert_eq!(manifest.prefix(), "com.example.tool@1.2.3");
    let empty = Manifest { name: "", version: "" };
    assert_eq!(empty.prefix(), "@");
}

#[test]
fn a_member_is_named_by_prefix_and_path() {
    assert_eq!(member_name("com.example.tool@1.2.3", "Foo/Bar.txt"), "com.example.tool@1.2.3/Foo/Bar.txt");
    assert_eq!(member_name("p@1", "package.json"), "p@1/package.json");
    assert_eq!(member_name("", ""), "/");
}
