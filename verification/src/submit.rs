//! Submitting mail: what a request must carry before it is accepted.
//!
//! The boundary a shared SMTP credential cannot give: a tenant sends only
//! as the domains it is registered for.

use vstd::prelude::*;
use base64::Engine;
use crate::address::{self, AddressError};
use crate::api::{self, ApiError, ApiErrorView};
use crate::authz;
use crate::text;

verus! {

#[derive(Debug, Clone)]
pub struct SubmitRequest {
    /// The caller's own id for the business event behind this mail; the
    /// same key can never produce a second message.
    pub idempotency_key: Option<String>,
    pub from: String,
    pub from_name: Option<String>,
    pub to: String,
    pub reply_to: Option<String>,
    pub subject: String,
    pub text: Option<String>,
    pub html: Option<String>,
    pub attachments: Vec<AttachmentRequest>,
}

#[derive(Debug, Clone)]
pub struct AttachmentRequest {
    pub filename: String,
    pub content_type: String,
    pub content_base64: String,
}

/// An attachment as stored with a message.
#[derive(Debug, Clone, PartialEq, Eq)]
pub struct Attachment {
    pub filename: String,
    pub content_type: String,
    pub content: Vec<u8>,
}

/// What an accepted request is stored as, besides its own fields.
#[derive(Debug, Clone, PartialEq, Eq)]
pub struct Submission {
    pub mail_from: String,
    pub rcpt_to: String,
    pub reply_to: Option<String>,
    pub attachments: Vec<Attachment>,
}

pub struct AttachmentView {
    pub filename: Seq<char>,
    pub content_type: Seq<char>,
    pub content: Seq<u8>,
}

pub struct SubmissionView {
    pub mail_from: Seq<char>,
    pub rcpt_to: Seq<char>,
    pub reply_to: Option<Seq<char>>,
    pub attachments: Seq<AttachmentView>,
}

impl View for Attachment {
    type V = AttachmentView;

    open spec fn view(&self) -> AttachmentView {
        AttachmentView {
            filename: self.filename@,
            content_type: self.content_type@,
            content: self.content@,
        }
    }
}

pub open spec fn attachment_views(v: Seq<Attachment>) -> Seq<AttachmentView> {
    v.map_values(|a: Attachment| a@)
}

/// The decoded attachments in front of what decoding the rest gives.
pub open spec fn after(done: Seq<AttachmentView>, rest: Result<Seq<AttachmentView>, ApiErrorView>) -> Result<Seq<AttachmentView>, ApiErrorView> {
    match rest {
        Ok(r) => Ok(done + r),
        Err(e) => Err(e),
    }
}

impl View for Submission {
    type V = SubmissionView;

    open spec fn view(&self) -> SubmissionView {
        SubmissionView {
            mail_from: self.mail_from@,
            rcpt_to: self.rcpt_to@,
            reply_to: self.reply_to.deep_view(),
            attachments: attachment_views(self.attachments@),
        }
    }
}

/// What standard base64 (with padding) decodes some bytes to, or the
/// decoder's error message.
pub uninterp spec fn base64_standard(data: Seq<u8>) -> Result<Seq<u8>, Seq<char>>;

/// `base64::engine::general_purpose::STANDARD.decode`: the decoded bytes,
/// or the error's message. Which input decodes to what is named rather
/// than stated; it depends on the bytes alone.
#[verifier::external_body]
fn decode_base64(data: &[u8]) -> (r: Result<Vec<u8>, String>)
    ensures
        match r {
            Ok(v) => base64_standard(data@) == Ok::<Seq<u8>, Seq<char>>(v@),
            Err(e) => base64_standard(data@) == Err::<Seq<u8>, Seq<char>>(e@),
        },
{
    base64::engine::general_purpose::STANDARD.decode(data).map_err(|e| e.to_string())
}

/// The error for an address field that did not normalize.
pub open spec fn field_error(field: Seq<char>, e: AddressError) -> ApiErrorView {
    ApiErrorView::BadRequest(field + ": "@ + address::address_error_text(e))
}

/// Attachments decoded from `from` on, or the first that does not decode.
pub open spec fn decode_all(atts: Seq<AttachmentRequest>, from: int) -> Result<Seq<AttachmentView>, ApiErrorView>
    decreases atts.len() - from,
{
    if from < 0 || from >= atts.len() {
        Ok(Seq::empty())
    } else {
        let a = atts[from];
        match base64_standard(vstd::utf8::encode_utf8(a.content_base64@)) {
            Err(m) => Err(
                ApiErrorView::BadRequest(
                    "attachment '"@ + a.filename@ + "': content_base64 is not valid base64: "@ + m,
                ),
            ),
            Ok(bytes) => match decode_all(atts, from + 1) {
                Ok(rest) => Ok(
                    seq![
                        AttachmentView {
                            filename: a.filename@,
                            content_type: a.content_type@,
                            content: bytes,
                        },
                    ] + rest,
                ),
                Err(e) => Err(e),
            },
        }
    }
}

/// What a submission decides, in this order: the sender, the recipient and
/// the reply-to address must normalize; the tenant must be allowed to send
/// as the sender's domain; a text or an html body is required, and a
/// subject; every attachment must be valid base64.
pub open spec fn submit_spec(
    req: SubmitRequest,
    tenant_name: Seq<char>,
    allowed: Seq<Seq<char>>,
) -> Result<SubmissionView, ApiErrorView> {
    match address::normalize_spec(req.from@) {
        Err(e) => Err(field_error("from"@, e)),
        Ok(mail_from) => match address::normalize_spec(req.to@) {
            Err(e) => Err(field_error("to"@, e)),
            Ok(rcpt_to) => {
                let reply = match req.reply_to {
                    Some(r) => match address::normalize_spec(r@) {
                        Ok(x) => Ok(Some(x)),
                        Err(e) => Err(e),
                    },
                    None => Ok(None),
                };
                match reply {
                    Err(e) => Err(field_error("reply_to"@, e)),
                    Ok(reply_to) => if !authz::may_send_as_spec(mail_from, allowed) {
                        Err(
                            ApiErrorView::BadRequest(
                                "tenant '"@ + tenant_name + "' may not send as "@ + mail_from
                                    + " (allowed domains: "@ + text::join(allowed, ", "@) + ")"@,
                            ),
                        )
                    } else if req.text is None && req.html is None {
                        Err(ApiErrorView::BadRequest("one of 'text' or 'html' is required"@))
                    } else if text::trim(req.subject@).len() == 0 {
                        Err(ApiErrorView::BadRequest("subject is required"@))
                    } else {
                        match decode_all(req.attachments@, 0) {
                            Err(e) => Err(e),
                            Ok(atts) => Ok(
                                SubmissionView { mail_from, rcpt_to, reply_to, attachments: atts },
                            ),
                        }
                    },
                }
            },
        },
    }
}

fn field_failure(field: &str, e: AddressError) -> (r: ApiError)
    ensures
        r@ == field_error(field@, e),
{
    let a = text::chars_of(field);
    let b = text::chars_of(": ");
    let c = text::chars_of(e.message());
    let ab = text::concat(&a, &b);
    let all = text::concat(&ab, &c);
    ApiError::BadRequest(text::string_of(&all))
}

/// An address given in the request field `field`, normalized; refused
/// naming the field and what is wrong with the address.
pub fn address_field(field: &str, raw: &str) -> (r: Result<String, ApiError>)
    ensures
        match r {
            Ok(a) => address::normalize_spec(raw@) == Ok::<Seq<char>, AddressError>(a@),
            Err(e) => address::normalize_spec(raw@) matches Err(ae) && e@ == field_error(field@, ae),
        },
{
    match address::normalize(raw) {
        Ok(a) => Ok(a),
        Err(e) => Err(field_failure(field, e)),
    }
}

fn copy_string(s: &String) -> (r: String)
    ensures
        r@ == s@,
{
    s.clone()
}

fn decode_attachments(atts: &Vec<AttachmentRequest>) -> (r: Result<Vec<Attachment>, ApiError>)
    ensures
        match r {
            Ok(v) => decode_all(atts@, 0) == Ok::<Seq<AttachmentView>, ApiErrorView>(
                attachment_views(v@),
            ),
            Err(e) => decode_all(atts@, 0) == Err::<Seq<AttachmentView>, ApiErrorView>(e@),
        },
{
    let mut decoded: Vec<Attachment> = Vec::new();
    let mut i: usize = 0;
    assert(after(attachment_views(decoded@), decode_all(atts@, 0)) == decode_all(atts@, 0)) by {
        assert(attachment_views(decoded@) =~= Seq::<AttachmentView>::empty());
        match decode_all(atts@, 0) {
            Ok(r) => {
                assert(Seq::<AttachmentView>::empty() + r =~= r);
            },
            Err(_) => {},
        }
    }
    while i < atts.len()
        invariant
            i <= atts@.len(),
            decode_all(atts@, 0) == after(attachment_views(decoded@), decode_all(atts@, i as int)),
        decreases atts@.len() - i,
    {
        let a = &atts[i];
        let data = match decode_base64(a.content_base64.as_str().as_bytes()) {
            Ok(d) => d,
            Err(m) => {
                let p = text::chars_of("attachment '");
                let q = text::chars_of(a.filename.as_str());
                let r = text::chars_of("': content_base64 is not valid base64: ");
                let s = text::chars_of(m.as_str());
                let pq = text::concat(&p, &q);
                let pqr = text::concat(&pq, &r);
                let all = text::concat(&pqr, &s);
                return Err(ApiError::BadRequest(text::string_of(&all)));
            },
        };
        let ghost before = attachment_views(decoded@);
        let item = Attachment {
            filename: copy_string(&a.filename),
            content_type: copy_string(&a.content_type),
            content: data,
        };
        let ghost v = item@;
        decoded.push(item);
        proof {
            assert(attachment_views(decoded@) =~= before.push(v));
            match decode_all(atts@, i + 1) {
                Ok(rest) => {
                    assert(before + (seq![v] + rest) =~= before.push(v) + rest);
                },
                Err(_) => {},
            }
        }
        i = i + 1;
    }
    assert(attachment_views(decoded@) + Seq::<AttachmentView>::empty() =~= attachment_views(decoded@));
    Ok(decoded)
}

/// Check a submission from `tenant_name`, which may send as
/// `allowed_domains`, and decode its attachments.
pub fn validate(req: &SubmitRequest, tenant_name: &str, allowed_domains: &[String]) -> (r: Result<Submission, ApiError>)
    ensures
        match r {
            Ok(s) => submit_spec(*req, tenant_name@, allowed_domains@.map_values(|d: String| d@))
                == Ok::<SubmissionView, ApiErrorView>(s@),
            Err(e) => submit_spec(*req, tenant_name@, allowed_domains@.map_values(|d: String| d@))
                == Err::<SubmissionView, ApiErrorView>(e@),
        },
{
    let mail_from = match address::normalize(req.from.as_str()) {
        Ok(a) => a,
        Err(e) => {
            return Err(field_failure("from", e));
        },
    };
    let rcpt_to = match address::normalize(req.to.as_str()) {
        Ok(a) => a,
        Err(e) => {
            return Err(field_failure("to", e));
        },
    };
    let reply_to = match &req.reply_to {
        Some(r) => match address::normalize(r.as_str()) {
            Ok(a) => Some(a),
            Err(e) => {
                return Err(field_failure("reply_to", e));
            },
        },
        None => None,
    };
    if !authz::may_send_as(mail_from.as_str(), allowed_domains) {
        let mut parts: Vec<Vec<char>> = Vec::new();
        let mut i: usize = 0;
        while i < allowed_domains.len()
            invariant
                i <= allowed_domains@.len(),
                parts@.len() == i,
                forall|k: int| 0 <= k < i ==> #[trigger] parts@[k]@ == allowed_domains@[k]@,
            decreases allowed_domains@.len() - i,
        {
            parts.push(text::chars_of(allowed_domains[i].as_str()));
            i = i + 1;
        }
        assert(text::views(parts@) =~= allowed_domains@.map_values(|d: String| d@));
        let sep = text::chars_of(", ");
        let listed = text::join_with(&parts, &sep);
        let a = text::chars_of("tenant '");
        let b = text::chars_of(tenant_name);
        let c = text::chars_of("' may not send as ");
        let d = text::chars_of(mail_from.as_str());
        let e = text::chars_of(" (allowed domains: ");
        let f = text::chars_of(")");
        let ab = text::concat(&a, &b);
        let abc = text::concat(&ab, &c);
        let abcd = text::concat(&abc, &d);
        let abcde = text::concat(&abcd, &e);
        let abcdel = text::concat(&abcde, &listed);
        let all = text::concat(&abcdel, &f);
        return Err(ApiError::BadRequest(text::string_of(&all)));
    }
    if req.text.is_none() && req.html.is_none() {
        let m = text::chars_of("one of 'text' or 'html' is required");
        return Err(ApiError::BadRequest(text::string_of(&m)));
    }
    let subj = text::chars_of(req.subject.as_str());
    let subj_t = text::trimmed(&subj);
    if subj_t.len() == 0 {
        let m = text::chars_of("subject is required");
        return Err(ApiError::BadRequest(text::string_of(&m)));
    }
    let decoded = decode_attachments(&req.attachments)?;
    Ok(Submission { mail_from, rcpt_to, reply_to, attachments: decoded })
}

} // verus!
