use scpf::chunking::ChunkProcessor;

#[test]
fn test_chunk_processor_basic() {
    let processor = ChunkProcessor::<String>::new(10, 2);
    let source = "line1\nline2\nline3\nline4\nline5";

    let results = processor
        .process(source, |chunk, line_offset| {
            Ok(vec![format!("chunk at line {}: {}", line_offset, chunk.len())])
        })
        .unwrap();

    assert!(!results.is_empty());
}

#[test]
fn test_chunk_processor_line_offset() {
    let processor = ChunkProcessor::<(usize, String)>::new(20, 5);
    let source = "line1\nline2\nline3\nline4\nline5\nline6\nline7\nline8";

    let results = processor
        .process(source, |chunk, line_offset| Ok(vec![(line_offset, chunk.to_string())]))
        .unwrap();

    assert_eq!(results[0].0, 0);
    for i in 1..results.len() {
        assert!(results[i].0 > 0);
    }
}

#[test]
fn test_chunk_processor_overlap() {
    let processor = ChunkProcessor::<String>::new(15, 5);
    let source = "0123456789abcdefghijklmnopqrstuvwxyz";

    let mut chunks = Vec::new();
    processor
        .process(source, |chunk, _| {
            chunks.push(chunk.to_string());
            Ok(vec![chunk.to_string()])
        })
        .unwrap();

    assert!(chunks.len() > 1);
    for i in 1..chunks.len() {
        let prev_end = &chunks[i - 1][chunks[i - 1].len().saturating_sub(5)..];
        let curr_start = &chunks[i][..5.min(chunks[i].len())];
        assert!(prev_end.len() > 0 && curr_start.len() > 0);
    }
}

#[test]
fn test_chunk_processor_small_source() {
    let processor = ChunkProcessor::<String>::new(100, 10);
    let source = "small";

    let results = processor
        .process(source, |chunk, line_offset| {
            assert_eq!(line_offset, 0);
            assert_eq!(chunk, "small");
            Ok(vec!["processed".to_string()])
        })
        .unwrap();

    assert_eq!(results.len(), 1);
}

#[test]
fn test_chunk_processor_exact_chunk_size() {
    let processor = ChunkProcessor::<String>::new(10, 2);
    let source = "0123456789";

    let results = processor.process(source, |chunk, _| Ok(vec![chunk.to_string()])).unwrap();

    assert_eq!(results.len(), 1);
    assert_eq!(results[0], source);
}

#[test]
fn test_chunk_processor_newline_counting() {
    let processor = ChunkProcessor::<usize>::new(20, 5);
    let source = "line1\nline2\nline3\nline4\nline5\nline6\nline7";

    let line_offsets: Vec<usize> = processor.process(source, |_, line_offset| Ok(vec![line_offset])).unwrap();

    assert_eq!(line_offsets[0], 0);
    for offset in &line_offsets[1..] {
        assert!(*offset > 0);
    }
}

#[test]
fn chunk_ranges_and_line_offsets_are_exact() {
    let processor = ChunkProcessor::<(usize, String)>::new(15, 5);
    let source = "0123456789abcdefghijklmnopqrstuvwxyz";
    let results = processor
        .process(source, |chunk, line_offset| Ok(vec![(line_offset, chunk.to_string())]))
        .unwrap();
    let chunks: Vec<&str> = results.iter().map(|(_, c)| c.as_str()).collect();
    assert_eq!(chunks, vec!["0123456789abcde", "abcdefghijklmno", "klmnopqrstuvwxy", "uvwxyz"]);

    let text = "a\nb\nc\nd\ne\nf\n";
    let lines = ChunkProcessor::<usize>::new(4, 1)
        .process(text, |_, line_offset| Ok(vec![line_offset]))
        .unwrap();
    assert_eq!(lines, vec![0, 1, 3, 4]);
}

#[test]
fn chunk_processing_stops_at_the_first_error() {
    let processor = ChunkProcessor::<usize>::new(4, 0);
    let mut calls = 0;
    let result = processor.process("aaaabbbbcccc", |chunk, _| {
        calls += 1;
        if chunk == "bbbb" {
            Err(anyhow::Error::msg("bad chunk"))
        } else {
            Ok(vec![chunk.len()])
        }
    });
    assert!(result.is_err());
    assert_eq!(calls, 2);
}

#[test]
fn empty_source_makes_no_call() {
    let processor = ChunkProcessor::<usize>::new(4, 1);
    let mut calls = 0;
    let result = processor.process("", |_, _| {
        calls += 1;
        Ok(vec![1])
    });
    assert_eq!(result.unwrap(), Vec::<usize>::new());
    assert_eq!(calls, 0);
}
