use general::{join_chunks, split_chunks, Chunk, Remark, RemarkType};

#[test]
fn test_chunk_split() {
    let remarks = vec![Remark::with_range(
        RemarkType::Masked,
        "@email:strip",
        (33, 47),
    )];

    let chunks = vec![
        Chunk::Text {
            text: "Hello Peter, my email address is ".into(),
        },
        Chunk::Redaction {
            ty: RemarkType::Masked,
            text: "****@*****.com".into(),
            rule_id: "@email:strip".into(),
        },
        Chunk::Text {
            text: ". See you".into(),
        },
    ];

    assert_eq!(
        split_chunks(
            "Hello Peter, my email address is ****@*****.com. See you",
            &remarks,
        ),
        chunks
    );

    assert_eq!(
        join_chunks(chunks),
        (
            "Hello Peter, my email address is ****@*****.com. See you".into(),
            remarks
        )
    );
}

#[test]
fn split_then_join_gives_back_text_and_remarks() {
    let text = "Hello, [redacted]!";
    let remarks = vec![Remark::with_range(RemarkType::Substituted, "myrule", (7, 17))];
    let chunks = split_chunks(text, &remarks);
    assert_eq!(chunks.len(), 3);
    let (joined, join_remarks) = join_chunks(chunks);
    assert_eq!(joined, text);
    assert_eq!(join_remarks, remarks);
}

#[test]
fn split_then_join_multibyte() {
    // "héllo wörld": é and ö take two bytes each.
    let text = "héllo wörld";
    let remarks = vec![
        Remark::with_range(RemarkType::Removed, "a", (0, 6)),
        Remark::with_range(RemarkType::Masked, "b", (7, 13)),
    ];
    let chunks = split_chunks(text, &remarks);
    assert_eq!(
        chunks,
        vec![
            Chunk::Redaction { text: "héllo".into(), rule_id: "a".into(), ty: RemarkType::Removed },
            Chunk::Text { text: " ".into() },
            Chunk::Redaction { text: "wörld".into(), rule_id: "b".into(), ty: RemarkType::Masked },
        ]
    );
    let total: usize = chunks.iter().map(|c| c.len()).sum();
    assert_eq!(total, text.len());
    let (joined, join_remarks) = join_chunks(chunks);
    assert_eq!(joined, text);
    assert_eq!(join_remarks, remarks);
}

#[test]
fn chunk_lengths_add_up_to_text_length() {
    let text = "abcdefghij";
    let remarks = vec![
        Remark::with_range(RemarkType::Masked, "r1", (2, 4)),
        Remark::with_range(RemarkType::Masked, "r2", (4, 4)),
        Remark::with_range(RemarkType::Pseudonymized, "r3", (6, 9)),
    ];
    let chunks = split_chunks(text, &remarks);
    let total: usize = chunks.iter().map(|c| c.len()).sum();
    assert_eq!(total, 10);
    let concatenated: String = chunks.iter().map(|c| c.as_str()).collect();
    assert_eq!(concatenated, text);
}

#[test]
fn rangeless_remarks_make_no_chunk() {
    let text = "Hello, [redacted]!";
    let with_rangeless = vec![
        Remark::new(RemarkType::Deleted, "whole"),
        Remark::with_range(RemarkType::Substituted, "myrule", (7, 17)),
        Remark::new(RemarkType::Removed, "other"),
    ];
    let ranged_only = vec![Remark::with_range(RemarkType::Substituted, "myrule", (7, 17))];
    let chunks = split_chunks(text, &with_rangeless);
    assert_eq!(chunks, split_chunks(text, &ranged_only));
    let (joined, join_remarks) = join_chunks(chunks);
    assert_eq!(joined, text);
    assert_eq!(join_remarks, ranged_only);
}

#[test]
fn only_rangeless_remarks_give_one_text_chunk() {
    let remarks = vec![Remark::new(RemarkType::Masked, "x")];
    assert_eq!(
        split_chunks("abc", &remarks),
        vec![Chunk::Text { text: "abc".into() }]
    );
}

#[test]
fn empty_text_gives_no_chunks() {
    assert_eq!(split_chunks("", &[]), Vec::<Chunk>::new());
    let (joined, remarks) = join_chunks(vec![]);
    assert_eq!(joined, "");
    assert!(remarks.is_empty());
}

#[test]
fn out_of_bounds_range_truncates() {
    let remarks = vec![Remark::with_range(RemarkType::Masked, "r", (2, 50))];
    assert_eq!(
        split_chunks("abcdef", &remarks),
        vec![Chunk::Text { text: "ab".into() }]
    );
}

#[test]
fn range_inside_a_character_truncates() {
    // 'é' covers bytes 1 and 2; offset 2 is inside it.
    let remarks = vec![
        Remark::with_range(RemarkType::Masked, "r", (0, 1)),
        Remark::with_range(RemarkType::Masked, "s", (2, 3)),
    ];
    assert_eq!(
        split_chunks("aéb", &remarks),
        vec![Chunk::Redaction { text: "a".into(), rule_id: "r".into(), ty: RemarkType::Masked }]
    );
}

#[test]
fn text_before_range_out_of_bounds_truncates() {
    let remarks = vec![
        Remark::with_range(RemarkType::Masked, "r", (0, 1)),
        Remark::with_range(RemarkType::Masked, "s", (9, 10)),
    ];
    assert_eq!(
        split_chunks("abc", &remarks),
        vec![Chunk::Redaction { text: "a".into(), rule_id: "r".into(), ty: RemarkType::Masked }]
    );
}

#[test]
fn join_recomputes_ranges() {
    let chunks = vec![
        Chunk::Text { text: "ab".into() },
        Chunk::Redaction { text: "[x]".into(), rule_id: "r".into(), ty: RemarkType::Substituted },
        Chunk::Text { text: "é".into() },
        Chunk::Redaction { text: "".into(), rule_id: "s".into(), ty: RemarkType::Removed },
    ];
    let (joined, remarks) = join_chunks(chunks);
    assert_eq!(joined, "ab[x]é");
    assert_eq!(
        remarks,
        vec![
            Remark::with_range(RemarkType::Substituted, "r", (2, 5)),
            Remark::with_range(RemarkType::Removed, "s", (7, 7)),
        ]
    );
}

#[test]
fn chunk_accessors() {
    let c = Chunk::Redaction { text: "wörld".into(), rule_id: "r".into(), ty: RemarkType::Masked };
    assert_eq!(c.as_str(), "wörld");
    assert_eq!(c.len(), 6);
    assert_eq!(c.chars(), 5);
    assert!(!c.is_empty());
    let e = Chunk::Text { text: String::new() };
    assert_eq!(e.len(), 0);
    assert_eq!(e.chars(), 0);
    assert!(e.is_empty());
}

#[test]
fn remark_accessors() {
    let r = Remark::with_range(RemarkType::Pseudonymized, "rule", (1, 4));
    assert_eq!(r.range(), Some(&(1, 4)));
    assert_eq!(r.rule_id(), "rule");
    assert_eq!(r.ty(), RemarkType::Pseudonymized);
    assert_eq!(Remark::new(RemarkType::Masked, "x").range(), None);
}
