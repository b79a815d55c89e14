use arc::chunker::{materialize, split_chunks};

fn regions_as_bytes(regions: &[Vec<u8>]) -> Vec<&[u8]> {
    regions.iter().map(|r| r.as_slice()).collect()
}

#[test]
fn unterminated_tail_is_flushed_not_dropped() {
    // Chunk size 2 on "a\nb\nc": the last chunk's unterminated "c" must
    // still reach the artifact.
    let regions = split_chunks(b"a\nb\nc", 2);
    assert_eq!(regions_as_bytes(&regions), vec![&b"a\n"[..], b"b\n", b"c"]);
    assert_eq!(materialize(&regions), b"a\nb\nc".to_vec());
}

#[test]
fn empty_input_produces_no_regions_and_empty_artifact() {
    let regions = split_chunks(b"", 4);
    assert!(regions.is_empty());
    assert_eq!(materialize(&regions), Vec::<u8>::new());
}

#[test]
fn chunk_smaller_than_input_reassembles_exactly() {
    let data = b"one\ntwo\nthree\n";
    for chunk in 1..=4usize {
        let regions = split_chunks(data, chunk);
        assert_eq!(materialize(&regions), data.to_vec());
        for r in &regions {
            assert!(!r.is_empty());
            assert!(r.len() <= chunk);
            assert!(*r.last().unwrap() == b'\n' || !r.contains(&b'\n'));
        }
    }
}

#[test]
fn chunk_equal_to_input_is_one_region() {
    let data = b"one\ntwo\n";
    let regions = split_chunks(data, data.len());
    assert_eq!(regions_as_bytes(&regions), vec![&data[..]]);
}

#[test]
fn unterminated_tail_becomes_its_own_final_region() {
    let data = b"one\ntwo";
    let regions = split_chunks(data, 1000);
    assert_eq!(regions_as_bytes(&regions), vec![&b"one\n"[..], b"two"]);
    assert_eq!(materialize(&regions), data.to_vec());
}

#[test]
fn terminator_free_input_still_makes_progress() {
    let data = b"abcdefgh";
    let regions = split_chunks(data, 3);
    assert_eq!(regions_as_bytes(&regions), vec![&b"abc"[..], b"def", b"gh"]);
    assert_eq!(materialize(&regions), data.to_vec());
}
