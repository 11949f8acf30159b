use mdbook_merjong::normalize::{crlf_to_lf_bytes, normalize_bytes, trim_end_bytes};
use mdbook_merjong::render::render;
use mdbook_merjong::events::ScanEvent;
use mdbook_merjong::scanner::{scan, scan_events};
use mdbook_merjong::splicer::{splice, ReplacementRecord};
use mdbook_merjong::scanner::ExtractionRecord;

fn tag() -> Vec<u8> {
    b"merjong".to_vec()
}

#[test]
fn scan_records_span_whole_block() {
    let input = b"```merjong\n234m-234m\n```".to_vec();
    let records = scan(&input, &tag());
    assert_eq!(records.len(), 1);
    assert_eq!(records[0].start, 0);
    assert_eq!(records[0].end, input.len());
    assert_eq!(records[0].payload, b"234m-234m".to_vec());
}

#[test]
fn scan_ignores_other_fences() {
    let input = b"```rust\nlet x = 1;\n```\n".to_vec();
    let records = scan(&input, &tag());
    assert_eq!(records.len(), 0);
}

#[test]
fn unterminated_stream_yields_no_records() {
    let content = b"```merjong\nfoo".to_vec();
    let events = vec![
        ScanEvent::FencedOpen { tag: b"merjong".to_vec(), start: 0, end: 14 },
        ScanEvent::Text { start: 11, end: 14 },
    ];
    let records = scan_events(&content, &events, &tag());
    assert_eq!(records.len(), 0);
    let output = splice(&content, &Vec::new());
    assert_eq!(output, content);
}

#[test]
fn fragmented_text_is_bridged_as_one_span() {
    let content = b"x111m+222p+333sy".to_vec();
    let events = vec![
        ScanEvent::FencedOpen { tag: b"merjong".to_vec(), start: 0, end: 16 },
        ScanEvent::Text { start: 1, end: 5 },
        ScanEvent::Text { start: 6, end: 10 },
        ScanEvent::Text { start: 11, end: 15 },
        ScanEvent::BlockClose { start: 0, end: 16 },
    ];
    let records = scan_events(&content, &events, &tag());
    assert_eq!(records.len(), 1);
    assert_eq!(records[0].payload, b"111m+222p+333s".to_vec());
}

#[test]
fn block_without_fragments_has_empty_payload() {
    // The second block closes without any text fragment: its payload is
    // empty, not a stale slice left over from the first block.
    let content = b"|111m|....|".to_vec();
    let events = vec![
        ScanEvent::FencedOpen { tag: b"merjong".to_vec(), start: 0, end: 6 },
        ScanEvent::Text { start: 1, end: 5 },
        ScanEvent::BlockClose { start: 0, end: 6 },
        ScanEvent::FencedOpen { tag: b"merjong".to_vec(), start: 6, end: 11 },
        ScanEvent::BlockClose { start: 6, end: 11 },
    ];
    let records = scan_events(&content, &events, &tag());
    assert_eq!(records.len(), 2);
    assert_eq!(records[0].payload, b"111m".to_vec());
    assert_eq!(records[1].payload, Vec::<u8>::new());
}

#[test]
fn splice_replaces_only_recorded_ranges() {
    let text = b"aaaXXbbbYYccc".to_vec();
    let reps = vec![
        ReplacementRecord {
            record: ExtractionRecord { start: 3, end: 5, payload: b"XX".to_vec() },
            rendered: b"[one]".to_vec(),
        },
        ReplacementRecord {
            record: ExtractionRecord { start: 8, end: 10, payload: b"YY".to_vec() },
            rendered: b"[two]".to_vec(),
        },
    ];
    let out = splice(&text, &reps);
    assert_eq!(out, b"aaa[one]bbb[two]ccc".to_vec());
}

fn splice_forward(text: &[u8], reps: &[(usize, usize, Vec<u8>)]) -> Vec<u8> {
    let mut out = Vec::new();
    let mut cursor = 0;
    for (start, end, rendered) in reps {
        out.extend_from_slice(&text[cursor..*start]);
        out.extend_from_slice(rendered);
        cursor = *end;
    }
    out.extend_from_slice(&text[cursor..]);
    out
}

#[test]
fn splice_order_is_immaterial() {
    // A small linear congruential generator drives the cases.
    let mut state: u64 = 0x2545F4914F6CDD1D;
    let mut next = move || {
        state = state.wrapping_mul(6364136223846793005).wrapping_add(1442695040888963407);
        (state >> 33) as usize
    };
    for _case in 0..50 {
        let len = 40 + next() % 160;
        let text: Vec<u8> = (0..len).map(|i| b'a' + (i % 26) as u8).collect();
        let mut reps = Vec::new();
        let mut plain = Vec::new();
        let mut cursor = 0;
        while cursor < len {
            let start = cursor + next() % 30;
            if start >= len {
                break;
            }
            let end = (start + next() % 20).min(len);
            let rendered: Vec<u8> = (0..next() % 10).map(|i| b'0' + (i % 10) as u8).collect();
            reps.push(ReplacementRecord {
                record: ExtractionRecord {
                    start,
                    end,
                    payload: text[start..end].to_vec(),
                },
                rendered: rendered.clone(),
            });
            plain.push((start, end, rendered));
            cursor = end + 1;
        }
        let back_to_front = splice(&text, &reps);
        let front_to_back = splice_forward(&text, &plain);
        assert_eq!(back_to_front, front_to_back);
    }
}

#[test]
fn render_wraps_payload() {
    let out = render(&b"234m".to_vec());
    assert_eq!(out, b"<pre class=\"merjong\">234m</pre>".to_vec());
}

#[test]
fn render_of_empty_payload() {
    let out = render(&Vec::new());
    assert_eq!(out, b"<pre class=\"merjong\"></pre>".to_vec());
}

#[test]
fn crlf_pairs_collapse() {
    let out = crlf_to_lf_bytes(&b"a\r\nb\r\rc\r\n".to_vec());
    assert_eq!(out, b"a\nb\r\rc\n".to_vec());
}

#[test]
fn trailing_whitespace_is_stripped() {
    let out = trim_end_bytes(&b"x y \t\r\n".to_vec());
    assert_eq!(out, b"x y".to_vec());
}

#[test]
fn normalization_combines_both_steps() {
    let out = normalize_bytes(&b"a\r\nb\r\n".to_vec());
    assert_eq!(out, b"a\nb".to_vec());
}
