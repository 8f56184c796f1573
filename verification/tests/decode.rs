//! End-to-end tests over hand-assembled `.DS_Store` buffers.

use ds_store::allocator::{block_address, Allocator};
use ds_store::directory::Directory;
use ds_store::record::{BackgroundType, RecordValue, StyleType};
use ds_store::{BadDataReason, DsStore, Error};

fn tag(bytes: &[u8; 4]) -> u32 {
    u32::from_be_bytes(*bytes)
}

fn put_u32(buf: &mut Vec<u8>, v: u32) {
    buf.extend_from_slice(&v.to_be_bytes());
}

fn put_u16(buf: &mut Vec<u8>, v: u16) {
    buf.extend_from_slice(&v.to_be_bytes());
}

/// A length-prefixed UTF-16BE filename.
fn utf16_name(name: &str) -> Vec<u8> {
    let units: Vec<u16> = name.encode_utf16().collect();
    let mut out = Vec::new();
    put_u32(&mut out, units.len() as u32);
    for u in units {
        put_u16(&mut out, u);
    }
    out
}

/// A whole record: filename, tag, then the payload bytes as given.
fn record(name: &str, tag_bytes: &[u8; 4], payload: &[u8]) -> Vec<u8> {
    let mut out = utf16_name(name);
    out.extend_from_slice(tag_bytes);
    out.extend_from_slice(payload);
    out
}

/// A `long` payload.
fn long_payload(v: i32) -> Vec<u8> {
    let mut p = b"long".to_vec();
    p.extend_from_slice(&v.to_be_bytes());
    p
}

/// A `dutc` payload.
fn dutc_payload(raw: i64) -> Vec<u8> {
    let mut p = b"dutc".to_vec();
    p.extend_from_slice(&raw.to_be_bytes());
    p
}

/// A leaf node block: zero pair count, then the records.
fn leaf_block(records: &[Vec<u8>]) -> Vec<u8> {
    let mut out = Vec::new();
    put_u32(&mut out, 0);
    put_u32(&mut out, records.len() as u32);
    for r in records {
        out.extend_from_slice(r);
    }
    out
}

/// An internal node block: the pair count, then (child, record) pairs.
fn internal_block(pairs: &[(u32, Vec<u8>)]) -> Vec<u8> {
    let mut out = Vec::new();
    put_u32(&mut out, pairs.len() as u32);
    for (child, rec) in pairs {
        put_u32(&mut out, *child);
        out.extend_from_slice(rec);
    }
    out
}

/// The B-tree root-header block: root node ID, three counts, sentinel.
fn tree_root_block(root_node: u32, internals: u32, records: u32, nodes: u32) -> Vec<u8> {
    let mut out = Vec::new();
    put_u32(&mut out, root_node);
    put_u32(&mut out, internals);
    put_u32(&mut out, records);
    put_u32(&mut out, nodes);
    out.extend_from_slice(&[0, 0, 0x10, 0]);
    out
}

/// Assemble a complete file.  `blocks[0]` is ignored (block 0 is the
/// header block); every other entry becomes a heap block under its
/// index as block ID.  `dsdb` is the root block ID stored in the TOC.
fn build_file(blocks: &[Vec<u8>], dsdb: u32) -> Vec<u8> {
    let n = blocks.len() as u32;
    let mut addrs: Vec<u32> = vec![0x05]; // block 0: the header, offset 0, size 32
    let mut chunks: Vec<(u32, Vec<u8>)> = Vec::new();
    let mut cur: u32 = 64;
    for b in &blocks[1..] {
        let len = b.len().max(1);
        let mut class: u32 = 0;
        while (1usize << class) < len {
            class += 1;
        }
        addrs.push(cur | class);
        chunks.push((cur, b.clone()));
        cur = (cur + 4 + (1u32 << class) + 31) / 32 * 32;
    }
    let mut info = Vec::new();
    put_u32(&mut info, n);
    put_u32(&mut info, 0);
    for a in &addrs {
        put_u32(&mut info, *a);
    }
    let pad = (256 - (n % 256)) * 4;
    info.extend(std::iter::repeat(0u8).take(pad as usize));
    put_u32(&mut info, 1);
    info.push(4);
    info.extend_from_slice(b"DSDB");
    put_u32(&mut info, dsdb);
    for _ in 0..32 {
        put_u32(&mut info, 0);
    }
    let info_off = cur;
    let info_size = info.len() as u32;
    let total = (info_off + 4 + info_size) as usize;
    let mut data = vec![0u8; total];
    data[3] = 1;
    data[4..8].copy_from_slice(b"Bud1");
    data[8..12].copy_from_slice(&info_off.to_be_bytes());
    data[12..16].copy_from_slice(&info_size.to_be_bytes());
    data[16..20].copy_from_slice(&info_off.to_be_bytes());
    for (off, b) in chunks {
        let s = off as usize + 4;
        data[s..s + b.len()].copy_from_slice(&b);
    }
    let s = info_off as usize + 4;
    data[s..s + info.len()].copy_from_slice(&info);
    data
}

/// A file whose whole tree is one leaf holding the given records.
fn single_leaf_file(records: &[Vec<u8>]) -> Vec<u8> {
    let root = tree_root_block(2, 0, records.len() as u32, 1);
    let leaf = leaf_block(records);
    build_file(&[Vec::new(), root, leaf], 1)
}

fn decode(data: Vec<u8>) -> Result<Directory, Error> {
    let allocator = Allocator::new(data)?;
    allocator.traverse()
}

fn attr<'a>(dir: &'a Directory, name: &str, tag_bytes: &[u8; 4]) -> &'a RecordValue {
    let entry = dir
        .contents
        .iter()
        .find(|e| e.name == name)
        .unwrap_or_else(|| panic!("no entry for {}", name));
    let t = tag(tag_bytes);
    &entry
        .attrs
        .iter()
        .find(|a| a.0 == t)
        .unwrap_or_else(|| panic!("no tag {:?} under {}", tag_bytes, name))
        .1
}

#[test]
fn block_address_unpacks_offset_and_size_class() {
    // 0x205: offset bits 0x200, size class 5.
    assert_eq!(block_address(0x0000_0205), (0x200, 32));
    assert_eq!(block_address(0x0000_0005), (0, 32));
    assert_eq!(block_address(0x0000_1F4B), (0x1F40, 2048));
}

#[test]
fn offsets_table_padding_of_one_entry_is_1020_bytes() {
    // A file whose offsets table has a single entry must carry exactly
    // (256 - 1) * 4 = 1020 padding bytes before the TOC; the builder
    // writes them, and the parser only reaches the TOC if it skips the
    // same amount.
    let data = build_file(&[Vec::new()], 0);
    let info_size = u32::from_be_bytes(data[12..16].try_into().unwrap()) as usize;
    assert_eq!(info_size, 8 + 4 + 1020 + 13 + 128);
    let a = Allocator::new(data).expect("decode");
    assert_eq!(a.offsets.len(), 1);
    assert_eq!(a.dsdb_location, 0);
    assert_eq!(a.free_list.len(), 32);
    assert!(a.free_list.iter().all(|l| l.is_empty()));
}

#[test]
fn inorder_traversal_yields_ascending_names() {
    // Leaf record "a.txt" under an internal node whose separator is
    // "b.txt": in-order traversal gives [a.txt, b.txt] even though the
    // leaf block sits after the internal block on disk.
    let root = tree_root_block(2, 1, 2, 2);
    let internal = internal_block(&[(3, record("b.txt", b"vSrn", &long_payload(2)))]);
    let leaf = leaf_block(&[record("a.txt", b"vSrn", &long_payload(1))]);
    let data = build_file(&[Vec::new(), root, internal, leaf], 1);
    let dir = decode(data).expect("decode");
    let names: Vec<&str> = dir.contents.iter().map(|e| e.name.as_str()).collect();
    assert_eq!(names, vec!["a.txt", "b.txt"]);
    assert_eq!(attr(&dir, "a.txt", b"vSrn"), &RecordValue::I32(1));
    assert_eq!(attr(&dir, "b.txt", b"vSrn"), &RecordValue::I32(2));
    assert_eq!(dir.num_internals, 1);
    assert_eq!(dir.num_records, 2);
    assert_eq!(dir.num_nodes, 2);
}

#[test]
fn dutc_timestamps_shift_by_the_mac_epoch_offset() {
    let data = single_leaf_file(&[
        record("a", b"modD", &dutc_payload(0)),
        record("b", b"moDD", &dutc_payload(-2_082_844_800)),
    ]);
    let dir = decode(data).expect("decode");
    // Raw 0 is the Mac epoch: 2,082,844,800 seconds past the Unix epoch.
    assert_eq!(attr(&dir, "a", b"modD"), &RecordValue::DateTime(2_082_844_800));
    // Raw -2,082,844,800 lands exactly on the Unix epoch.
    assert_eq!(attr(&dir, "b", b"moDD"), &RecordValue::DateTime(0));
}

#[test]
fn iloc_blob_of_wrong_length_is_bad_data() {
    let mut payload = b"blob".to_vec();
    put_u32(&mut payload, 15);
    payload.extend_from_slice(&[0u8; 15]);
    let data = single_leaf_file(&[record("f", b"Iloc", &payload)]);
    assert_eq!(
        decode(data),
        Err(Error::BadData(BadDataReason::BlobLength(tag(b"Iloc"))))
    );
}

#[test]
fn iloc_blob_of_sixteen_bytes_decodes() {
    let mut payload = b"blob".to_vec();
    put_u32(&mut payload, 16);
    let body: Vec<u8> = (0u8..16).collect();
    payload.extend_from_slice(&body);
    let data = single_leaf_file(&[record("f", b"Iloc", &payload)]);
    let dir = decode(data).expect("decode");
    assert_eq!(attr(&dir, "f", b"Iloc"), &RecordValue::Blob(body));
}

#[test]
fn wrong_sentinel_is_rejected_before_anything_else() {
    let mut data = single_leaf_file(&[record("a", b"vSrn", &long_payload(1))]);
    data[3] = 2;
    assert_eq!(decode(data), Err(Error::BadData(BadDataReason::Sentinel)));
    let garbage = vec![0xFFu8; 64];
    assert_eq!(decode(garbage), Err(Error::BadData(BadDataReason::Sentinel)));
}

#[test]
fn truncated_buffers_give_not_enough_data() {
    let data = single_leaf_file(&[record("a", b"vSrn", &long_payload(1))]);
    for len in [0, 1, 3, 4, 10, 35] {
        let mut short = data.clone();
        short.truncate(len);
        assert_eq!(decode(short), Err(Error::NotEnoughData), "length {}", len);
    }
}

#[test]
fn unknown_tag_carries_the_offending_bytes() {
    let data = single_leaf_file(&[record("f", b"zzzz", b"long\x00\x00\x00\x01")]);
    assert_eq!(decode(data), Err(Error::UnknownStructureType(tag(b"zzzz"))));
}

#[test]
fn unknown_background_subtag_is_rejected() {
    let mut payload = b"blob".to_vec();
    payload.extend_from_slice(b"XxXx");
    payload.extend_from_slice(&[0u8; 8]);
    let data = single_leaf_file(&[record("f", b"BKGD", &payload)]);
    assert_eq!(decode(data), Err(Error::UnknownStructureType(tag(b"XxXx"))));
}

#[test]
fn unknown_view_style_code_is_rejected() {
    let mut payload = b"type".to_vec();
    payload.extend_from_slice(b"grid");
    let data = single_leaf_file(&[record("f", b"vstl", &payload)]);
    assert_eq!(decode(data), Err(Error::UnknownStructureType(tag(b"grid"))));
}

#[test]
fn type_code_mismatch_is_bad_data() {
    let mut payload = b"shor".to_vec();
    put_u32(&mut payload, 1);
    let data = single_leaf_file(&[record("f", b"vSrn", &payload)]);
    assert_eq!(
        decode(data),
        Err(Error::BadData(BadDataReason::TypeCode(tag(b"vSrn"))))
    );
}

#[test]
fn every_scalar_family_decodes() {
    let mut shor = b"shor".to_vec();
    shor.extend_from_slice(&[0, 0]); // padding half of the four bytes
    shor.extend_from_slice(&(-7i16).to_be_bytes());
    let mut comp = b"comp".to_vec();
    comp.extend_from_slice(&(-5i64).to_be_bytes());
    let mut ustr = b"ustr".to_vec();
    ustr.extend(utf16_name("héllo ⌘"));
    let boolean = b"bool\x01".to_vec();
    let data = single_leaf_file(&[
        record("f", b"dscl", &boolean),
        record("f", b"vSrn", &long_payload(-40)),
        record("f", b"fwvh", &shor),
        record("f", b"logS", &comp),
        record("f", b"cmmt", &ustr),
    ]);
    let dir = decode(data).expect("decode");
    assert_eq!(dir.contents.len(), 1);
    assert_eq!(attr(&dir, "f", b"dscl"), &RecordValue::Bool(true));
    assert_eq!(attr(&dir, "f", b"vSrn"), &RecordValue::I32(-40));
    assert_eq!(attr(&dir, "f", b"fwvh"), &RecordValue::I16(-7));
    assert_eq!(attr(&dir, "f", b"logS"), &RecordValue::I64(-5));
    assert_eq!(
        attr(&dir, "f", b"cmmt"),
        &RecordValue::String(String::from("héllo ⌘"))
    );
}

#[test]
fn blob_families_decode() {
    let mut icvo = b"blob".to_vec();
    put_u32(&mut icvo, 18);
    let icvo_body: Vec<u8> = (10u8..28).collect();
    icvo.extend_from_slice(&icvo_body);
    let mut bwsp = b"blob".to_vec();
    put_u32(&mut bwsp, 3);
    bwsp.extend_from_slice(&[9, 9, 9]);
    let data = single_leaf_file(&[
        record("f", b"icvo", &icvo),
        record("f", b"bwsp", &bwsp),
    ]);
    let dir = decode(data).expect("decode");
    assert_eq!(attr(&dir, "f", b"icvo"), &RecordValue::Blob(icvo_body));
    assert_eq!(attr(&dir, "f", b"bwsp"), &RecordValue::Blob(vec![9, 9, 9]));
}

#[test]
fn icvo_blob_of_other_length_is_bad_data() {
    let mut icvo = b"blob".to_vec();
    put_u32(&mut icvo, 20);
    icvo.extend_from_slice(&[0u8; 20]);
    let data = single_leaf_file(&[record("f", b"icvo", &icvo)]);
    assert_eq!(
        decode(data),
        Err(Error::BadData(BadDataReason::BlobLength(tag(b"icvo"))))
    );
}

#[test]
fn background_variants_decode() {
    let mut defb = b"blob".to_vec();
    defb.extend_from_slice(b"DefB");
    defb.extend_from_slice(&[0u8; 8]);
    let mut clrb = b"blob".to_vec();
    clrb.extend_from_slice(b"ClrB");
    put_u16(&mut clrb, 0xFFFF);
    put_u16(&mut clrb, 0x8000);
    put_u16(&mut clrb, 0x0001);
    clrb.extend_from_slice(&[0, 0]);
    let mut pctb = b"blob".to_vec();
    pctb.extend_from_slice(b"PctB");
    put_u32(&mut pctb, 777);
    pctb.extend_from_slice(&[0u8; 4]);
    let data = single_leaf_file(&[
        record("a", b"BKGD", &defb),
        record("b", b"BKGD", &clrb),
        record("c", b"BKGD", &pctb),
    ]);
    let dir = decode(data).expect("decode");
    assert_eq!(
        attr(&dir, "a", b"BKGD"),
        &RecordValue::Background(BackgroundType::Default)
    );
    assert_eq!(
        attr(&dir, "b", b"BKGD"),
        &RecordValue::Background(BackgroundType::SolidColor(0xFFFF, 0x8000, 1))
    );
    assert_eq!(
        attr(&dir, "c", b"BKGD"),
        &RecordValue::Background(BackgroundType::Picture(777))
    );
}

#[test]
fn view_styles_decode() {
    let style = |code: &[u8; 4]| {
        let mut p = b"type".to_vec();
        p.extend_from_slice(code);
        p
    };
    let data = single_leaf_file(&[
        record("a", b"vstl", &style(b"icnv")),
        record("b", b"vstl", &style(b"clmv")),
        record("c", b"vstl", &style(b"Nlsv")),
        record("d", b"vstl", &style(b"Flwv")),
    ]);
    let dir = decode(data).expect("decode");
    assert_eq!(attr(&dir, "a", b"vstl"), &RecordValue::Style(StyleType::Icon));
    assert_eq!(
        attr(&dir, "b", b"vstl"),
        &RecordValue::Style(StyleType::ColumnBrowser)
    );
    assert_eq!(attr(&dir, "c", b"vstl"), &RecordValue::Style(StyleType::List));
    assert_eq!(
        attr(&dir, "d", b"vstl"),
        &RecordValue::Style(StyleType::CoverFlow)
    );
}

#[test]
fn block_id_outside_offsets_table_is_rejected() {
    let root = tree_root_block(9, 0, 0, 1);
    let data = build_file(&[Vec::new(), root], 1);
    assert_eq!(decode(data), Err(Error::BlockDoesntExist));
    let root2 = tree_root_block(2, 0, 0, 1);
    let leaf = leaf_block(&[]);
    let data2 = build_file(&[Vec::new(), root2, leaf], 7);
    assert_eq!(decode(data2), Err(Error::BlockDoesntExist));
}

#[test]
fn unpaired_surrogate_in_filename_is_invalid_string() {
    let mut rec = Vec::new();
    put_u32(&mut rec, 1);
    put_u16(&mut rec, 0xD800); // lone high surrogate
    rec.extend_from_slice(b"vSrn");
    rec.extend_from_slice(&long_payload(1));
    let data = single_leaf_file(&[rec]);
    assert_eq!(decode(data), Err(Error::InvalidString));
}

#[test]
fn self_referential_tree_hits_the_recursion_limit() {
    // Block 2 names itself as its only child; the depth budget from the
    // declared node count runs out instead of recursing forever.
    let root = tree_root_block(2, 1, 1, 2);
    let internal = internal_block(&[(2, record("x", b"vSrn", &long_payload(1)))]);
    let data = build_file(&[Vec::new(), root, internal], 1);
    assert_eq!(decode(data), Err(Error::RecursionLimit));
}

#[test]
fn duplicate_tag_for_one_name_is_last_write_wins() {
    let data = single_leaf_file(&[
        record("f", b"vSrn", &long_payload(1)),
        record("f", b"vSrn", &long_payload(2)),
    ]);
    let dir = decode(data).expect("decode");
    assert_eq!(dir.contents.len(), 1);
    assert_eq!(dir.contents[0].attrs.len(), 1);
    assert_eq!(attr(&dir, "f", b"vSrn"), &RecordValue::I32(2));
}

#[test]
fn empty_leaf_decodes_to_empty_contents() {
    let data = single_leaf_file(&[]);
    let dir = decode(data).expect("decode");
    assert!(dir.contents.is_empty());
}

#[test]
fn wrong_toc_key_is_bad_data() {
    let mut data = single_leaf_file(&[]);
    let pos = data
        .windows(4)
        .position(|w| w == b"DSDB")
        .expect("key present");
    data[pos + 3] = b'X';
    assert_eq!(decode(data), Err(Error::BadData(BadDataReason::TocKey)));
}

#[test]
fn offset_check_mismatch_is_bad_data() {
    let mut data = single_leaf_file(&[]);
    data[19] ^= 1; // the repeated info-block offset no longer matches
    assert_eq!(decode(data), Err(Error::BadData(BadDataReason::OffsetCheck)));
}

#[test]
fn leaf_overrunning_its_block_is_not_enough_data() {
    // The leaf declares five records but holds one; the reads stop at
    // the block boundary.
    let root = tree_root_block(2, 0, 5, 1);
    let mut leaf = Vec::new();
    put_u32(&mut leaf, 0);
    put_u32(&mut leaf, 5);
    leaf.extend_from_slice(&record("a", b"vSrn", &long_payload(1)));
    let data = build_file(&[Vec::new(), root, leaf], 1);
    assert_eq!(decode(data), Err(Error::NotEnoughData));
}

#[test]
fn store_facade_exposes_the_same_contents() {
    let data = single_leaf_file(&[record("a.txt", b"vSrn", &long_payload(3))]);
    let store = DsStore::new(data).expect("decode");
    let contents = store.contents();
    assert_eq!(contents.len(), 1);
    assert_eq!(contents[0].name, "a.txt");
    assert_eq!(contents[0].attrs, vec![(tag(b"vSrn"), RecordValue::I32(3))]);
}
