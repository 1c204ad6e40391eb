use antworker::attachment::{
    collect_pdf_attachments, synthesized_name, MessageMime, MimeLeaf, MimePart,
};

fn pdf_part(name: Option<&str>, body: &[u8]) -> MimePart {
    MimePart {
        mimetype: "application/pdf".to_string(),
        name: name.map(|n| n.to_string()),
        body: body.to_vec(),
        subparts: Vec::new(),
    }
}

#[test]
fn test_mixed_child_pdf_extracted() {
    // A `multipart/mixed` child holding one `application/pdf` part named
    // `invoice_01.pdf`: after extraction the file exists under that name with
    // bytes identical to the part's raw body.
    let body: Vec<u8> = vec![0x25, 0x50, 0x44, 0x46, 0x2d, 0x31, 0x2e, 0x34];
    let msg = MessageMime {
        parts: vec![MimePart {
            mimetype: "multipart/mixed".to_string(),
            name: None,
            body: Vec::new(),
            subparts: vec![MimeLeaf {
                mimetype: "application/pdf".to_string(),
                name: Some("invoice_01.pdf".to_string()),
                body: body.clone(),
            }],
        }],
    };
    let files = collect_pdf_attachments(7, &msg);
    assert_eq!(files.len(), 1);
    assert_eq!(files[0].filename, "invoice_01.pdf");
    assert_eq!(files[0].content, body);
}

#[test]
fn test_direct_pdf_part_extracted() {
    let msg = MessageMime { parts: vec![pdf_part(Some("a.pdf"), b"abc")] };
    let files = collect_pdf_attachments(1, &msg);
    assert_eq!(files.len(), 1);
    assert_eq!(files[0].filename, "a.pdf");
    assert_eq!(files[0].content, b"abc".to_vec());
}

#[test]
fn test_nameless_pdf_gets_synthesized_name() {
    let msg = MessageMime { parts: vec![pdf_part(None, b"xyz")] };
    let files = collect_pdf_attachments(77, &msg);
    assert_eq!(files.len(), 1);
    assert_eq!(files[0].filename, "attachment_77_unnamed.pdf");
    assert_eq!(synthesized_name(123), "attachment_123_unnamed.pdf");
}

#[test]
fn test_non_pdf_parts_ignored() {
    let msg = MessageMime {
        parts: vec![
            MimePart {
                mimetype: "text/plain".to_string(),
                name: None,
                body: b"hello".to_vec(),
                subparts: Vec::new(),
            },
            pdf_part(Some("keep.pdf"), b"k"),
            MimePart {
                mimetype: "multipart/mixed".to_string(),
                name: None,
                body: Vec::new(),
                subparts: vec![MimeLeaf {
                    mimetype: "text/html".to_string(),
                    name: Some("skip.html".to_string()),
                    body: b"<p>".to_vec(),
                }],
            },
        ],
    };
    let files = collect_pdf_attachments(5, &msg);
    assert_eq!(files.len(), 1);
    assert_eq!(files[0].filename, "keep.pdf");
}
