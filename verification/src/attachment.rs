//! Attachment extraction: walking one level of MIME multipart structure —
//! plus the children of any `multipart/mixed` child, a two-level ceiling by
//! design — and collecting the PDF parts with their file names. Writing the
//! files is an I/O concern outside the library.

use crate::text::{spec_dec, u32_string};
use vstd::prelude::*;
use vstd::string::StringExecFns;

verus! {

/// A MIME part one level below a message's immediate children; holds no
/// further structure (deeper nesting is out of scope).
#[derive(Debug)]
pub struct MimeLeaf {
    pub mimetype: String,
    pub name: Option<String>,
    pub body: Vec<u8>,
}

/// An immediate child part of a message, with its own immediate children.
#[derive(Debug)]
pub struct MimePart {
    pub mimetype: String,
    pub name: Option<String>,
    pub body: Vec<u8>,
    pub subparts: Vec<MimeLeaf>,
}

/// The MIME shape of one fetched message body, to the supported depth.
#[derive(Debug)]
pub struct MessageMime {
    pub parts: Vec<MimePart>,
}

/// A PDF part materialized as a file: its name and its raw (undecoded) bytes.
#[derive(Debug)]
pub struct AttachmentFile {
    pub filename: String,
    pub content: Vec<u8>,
}

/// The mathematical model of an attachment file.
pub struct AttachmentModel {
    pub filename: Seq<char>,
    pub content: Seq<u8>,
}

impl View for AttachmentFile {
    type V = AttachmentModel;

    open spec fn view(&self) -> AttachmentModel {
        AttachmentModel { filename: self.filename@, content: self.content@ }
    }
}

/// The file name synthesized for a nameless PDF part.
pub open spec fn spec_synthesized_name(uid: u32) -> Seq<char> {
    "attachment_"@ + spec_dec(uid as nat) + "_unnamed.pdf"@
}

/// The attachment taken from one PDF part: the `name` parameter when present,
/// the synthesized name otherwise, with the part's raw bytes.
pub open spec fn spec_attachment_of(uid: u32, name: Option<String>, body: Seq<u8>) -> AttachmentModel {
    AttachmentModel {
        filename: match name {
            Some(n) => n@,
            None => spec_synthesized_name(uid),
        },
        content: body,
    }
}

/// The PDFs among a `multipart/mixed` child's own children.
pub open spec fn spec_leaf_pdfs(uid: u32, leaves: Seq<MimeLeaf>) -> Seq<AttachmentModel>
    decreases leaves.len(),
{
    if leaves.len() == 0 {
        Seq::<AttachmentModel>::empty()
    } else {
        let rest = spec_leaf_pdfs(uid, leaves.drop_last());
        let l = leaves.last();
        if l.mimetype@ == "application/pdf"@ {
            rest.push(spec_attachment_of(uid, l.name, l.body@))
        } else {
            rest
        }
    }
}

/// The PDFs contributed by one immediate child: the part itself when it is a
/// PDF, its one-level children when it is `multipart/mixed`, nothing else.
pub open spec fn spec_part_pdfs(uid: u32, part: MimePart) -> Seq<AttachmentModel> {
    if part.mimetype@ == "application/pdf"@ {
        seq![spec_attachment_of(uid, part.name, part.body@)]
    } else if part.mimetype@ == "multipart/mixed"@ {
        spec_leaf_pdfs(uid, part.subparts@)
    } else {
        Seq::<AttachmentModel>::empty()
    }
}

/// All PDFs of a message, across its immediate children in order.
pub open spec fn spec_message_pdfs(uid: u32, parts: Seq<MimePart>) -> Seq<AttachmentModel>
    decreases parts.len(),
{
    if parts.len() == 0 {
        Seq::<AttachmentModel>::empty()
    } else {
        spec_message_pdfs(uid, parts.drop_last()) + spec_part_pdfs(uid, parts.last())
    }
}

fn copy_bytes(v: &Vec<u8>) -> (r: Vec<u8>)
    ensures
        r@ == v@,
{
    let mut r: Vec<u8> = Vec::new();
    let mut i: usize = 0;
    while i < v.len()
        invariant
            i <= v@.len(),
            r@ =~= v@.subrange(0, i as int),
        decreases v@.len() - i,
    {
        r.push(v[i]);
        i = i + 1;
    }
    proof {
        assert(r@ =~= v@);
    }
    r
}

/// The synthesized `attachment_<uid>_unnamed.pdf` file name.
pub fn synthesized_name(uid: u32) -> (r: String)
    ensures
        r@ == spec_synthesized_name(uid),
{
    let mut s = "attachment_".to_owned();
    let n = u32_string(uid);
    s.append(n.as_str());
    s.append("_unnamed.pdf");
    s
}

fn attachment_of(uid: u32, name: &Option<String>, body: &Vec<u8>) -> (r: AttachmentFile)
    ensures
        (r@ == spec_attachment_of(uid, *name, body@)),
{
    let filename = match name {
        Some(n) => n.clone(),
        None => synthesized_name(uid),
    };
    AttachmentFile { filename, content: copy_bytes(body) }
}

/// Collects the PDF attachments of one message: every `application/pdf`
/// immediate child, and every `application/pdf` child of a `multipart/mixed`
/// immediate child.
pub fn collect_pdf_attachments(uid: u32, msg: &MessageMime) -> (r: Vec<AttachmentFile>)
    ensures
        r@.map_values(|a: AttachmentFile| a@) == spec_message_pdfs(uid, msg.parts@),
{
    let pdf = "application/pdf".to_owned();
    let mixed = "multipart/mixed".to_owned();
    let mut out: Vec<AttachmentFile> = Vec::new();
    let mut i: usize = 0;
    proof {
        assert(msg.parts@.take(0) =~= Seq::<MimePart>::empty());
        assert(out@.map_values(|a: AttachmentFile| a@) =~= Seq::<AttachmentModel>::empty());
    }
    while i < msg.parts.len()
        invariant
            i <= msg.parts@.len(),
            pdf@ == "application/pdf"@,
            mixed@ == "multipart/mixed"@,
            out@.map_values(|a: AttachmentFile| a@) == spec_message_pdfs(
                uid,
                msg.parts@.take(i as int),
            ),
        decreases msg.parts@.len() - i,
    {
        let ghost gathered = out@.map_values(|a: AttachmentFile| a@);
        let part = &msg.parts[i];
        if part.mimetype.eq(&pdf) {
            let af = attachment_of(uid, &part.name, &part.body);
            let ghost out_before = out@;
            out.push(af);
            proof {
                assert(out@.map_values(|a: AttachmentFile| a@) =~= out_before.map_values(
                    |a: AttachmentFile| a@,
                ).push(af@));
                assert(gathered + spec_part_pdfs(uid, msg.parts@[i as int]) =~= gathered.push(
                    af@,
                ));
                assert(out@.map_values(|a: AttachmentFile| a@) == gathered + spec_part_pdfs(
                    uid,
                    msg.parts@[i as int],
                ));
            }
        } else if part.mimetype.eq(&mixed) {
            let mut j: usize = 0;
            proof {
                assert(msg.parts@[i as int].subparts@.take(0) =~= Seq::<MimeLeaf>::empty());
                assert(out@.map_values(|a: AttachmentFile| a@) =~= gathered + spec_leaf_pdfs(
                    uid,
                    msg.parts@[i as int].subparts@.take(0),
                ));
            }
            while j < part.subparts.len()
                invariant
                    i < msg.parts@.len(),
                    j <= msg.parts@[i as int].subparts@.len(),
                    pdf@ == "application/pdf"@,
                    *part == msg.parts@[i as int],
                    out@.map_values(|a: AttachmentFile| a@) == gathered + spec_leaf_pdfs(
                        uid,
                        msg.parts@[i as int].subparts@.take(j as int),
                    ),
                decreases msg.parts@[i as int].subparts@.len() - j,
            {
                let ghost leaves = msg.parts@[i as int].subparts@;
                let leaf = &part.subparts[j];
                proof {
                    assert(*leaf == leaves[j as int]);
                    assert(leaves.take(j + 1).drop_last() =~= leaves.take(j as int));
                    assert(leaves.take(j + 1).last() == leaves[j as int]);
                }
                if leaf.mimetype.eq(&pdf) {
                    let af = attachment_of(uid, &leaf.name, &leaf.body);
                    let ghost out_before = out@;
                    out.push(af);
                    proof {
                        assert(af@ == spec_attachment_of(
                            uid,
                            leaves[j as int].name,
                            leaves[j as int].body@,
                        ));
                        assert(leaves[j as int].mimetype@ == "application/pdf"@);
                        assert(spec_leaf_pdfs(uid, leaves.take(j + 1)) == spec_leaf_pdfs(
                            uid,
                            leaves.take(j as int),
                        ).push(af@));
                        assert(out@.map_values(|a: AttachmentFile| a@) =~= out_before.map_values(
                            |a: AttachmentFile| a@,
                        ).push(af@));
                        assert(gathered + spec_leaf_pdfs(uid, leaves.take(j + 1)) =~= (gathered
                            + spec_leaf_pdfs(uid, leaves.take(j as int))).push(af@));
                        assert(out@.map_values(|a: AttachmentFile| a@) == gathered
                            + spec_leaf_pdfs(uid, leaves.take(j + 1)));
                    }
                } else {
                    proof {
                        assert(leaves[j as int].mimetype@ != "application/pdf"@);
                        assert(spec_leaf_pdfs(uid, leaves.take(j + 1)) == spec_leaf_pdfs(
                            uid,
                            leaves.take(j as int),
                        ));
                    }
                }
                j = j + 1;
            }
            proof {
                let leaves = msg.parts@[i as int].subparts@;
                assert(leaves.take(leaves.len() as int) =~= leaves);
                assert(spec_part_pdfs(uid, msg.parts@[i as int]) == spec_leaf_pdfs(uid, leaves));
            }
        } else {
            proof {
                assert(spec_part_pdfs(uid, msg.parts@[i as int]) =~= Seq::<
                    AttachmentModel,
                >::empty());
                assert(out@.map_values(|a: AttachmentFile| a@) =~= gathered + spec_part_pdfs(
                    uid,
                    msg.parts@[i as int],
                ));
            }
        }
        proof {
            assert(msg.parts@.take(i + 1).drop_last() =~= msg.parts@.take(i as int));
            assert(msg.parts@.take(i + 1).last() == msg.parts@[i as int]);
        }
        i = i + 1;
    }
    proof {
        assert(msg.parts@.take(msg.parts@.len() as int) =~= msg.parts@);
    }
    out
}

} // verus!
