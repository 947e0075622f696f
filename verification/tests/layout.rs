use zerochannel::metadata::{entry_bytes, HEADER_BYTES, SLOT_ALIGN};

#[test]
fn slot_seq_words_are_aligned() {
    for payload in [8usize, 16, 24, 4096] {
        assert!(HEADER_BYTES.is_multiple_of(SLOT_ALIGN));
        for i in 0..64 {
            let offset = HEADER_BYTES + i * entry_bytes(payload);
            assert!(
                offset.is_multiple_of(SLOT_ALIGN),
                "slot {i} of a {payload}-byte channel is misaligned"
            );
        }
    }
}
