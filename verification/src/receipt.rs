//! The record of what was decided about each request and of how it ended.
use vstd::prelude::*;

use crate::text::{copy_texts, string_view, texts};
use crate::url::copy_option;

verus! {

/// What asked for a request.
#[derive(Debug, Clone, Copy, PartialEq, Eq, Structural)]
pub enum Initiator {
    Navigation,
    Redirect,
    Frame,
    Subresource,
    Replay,
}

/// Which half of an exchange a record is.
#[derive(Debug, Clone, Copy, PartialEq, Eq, Structural)]
pub enum Phase {
    Request,
    Response,
}

/// One line of the log. A request and its response share a number.
#[derive(Debug, Clone, PartialEq, Eq)]
pub struct RequestRecord {
    pub seq: u64,
    pub phase: Phase,
    pub initiator: Initiator,
    pub method: String,
    pub url: String,
    pub allowed: bool,
    /// Why it was not allowed.
    pub reason: Option<String>,
    /// Headers the caller set that the client owns.
    pub headers_overridden: Vec<String>,
    pub status: Option<u16>,
    pub duration_ms: Option<u64>,
    pub ttfb_ms: Option<u64>,
    pub cookies_sent: Option<usize>,
    pub cookies_stored: Option<usize>,
    pub error: Option<String>,
    /// What crossed the wire, where that is not what was read.
    pub wire_bytes: Option<u64>,
    pub content_encoding: Option<String>,
    pub bytes: Option<u64>,
    /// What a raw connection carried after the response.
    pub trailing_bytes: Option<u64>,
}

/// What a [`RequestRecord`] says.
#[verifier::ext_equal]
pub struct RecordView {
    pub seq: u64,
    pub phase: Phase,
    pub initiator: Initiator,
    pub method: Seq<char>,
    pub url: Seq<char>,
    pub allowed: bool,
    pub reason: Option<Seq<char>>,
    pub headers_overridden: Seq<Seq<char>>,
    pub status: Option<u16>,
    pub duration_ms: Option<u64>,
    pub ttfb_ms: Option<u64>,
    pub cookies_sent: Option<usize>,
    pub cookies_stored: Option<usize>,
    pub error: Option<Seq<char>>,
    pub wire_bytes: Option<u64>,
    pub content_encoding: Option<Seq<char>>,
    pub bytes: Option<u64>,
    pub trailing_bytes: Option<u64>,
}

impl View for RequestRecord {
    type V = RecordView;

    open spec fn view(&self) -> RecordView {
        RecordView {
            seq: self.seq,
            phase: self.phase,
            initiator: self.initiator,
            method: self.method@,
            url: self.url@,
            allowed: self.allowed,
            reason: string_view(self.reason),
            headers_overridden: texts(self.headers_overridden@),
            status: self.status,
            duration_ms: self.duration_ms,
            ttfb_ms: self.ttfb_ms,
            cookies_sent: self.cookies_sent,
            cookies_stored: self.cookies_stored,
            error: string_view(self.error),
            wire_bytes: self.wire_bytes,
            content_encoding: string_view(self.content_encoding),
            bytes: self.bytes,
            trailing_bytes: self.trailing_bytes,
        }
    }
}

/// The record of a request that is about to be made.
pub open spec fn request_record(
    seq: u64,
    initiator: Initiator,
    method: Seq<char>,
    url: Seq<char>,
) -> RecordView {
    RecordView {
        seq,
        phase: Phase::Request,
        initiator,
        method,
        url,
        allowed: true,
        reason: None,
        headers_overridden: Seq::empty(),
        status: None,
        duration_ms: None,
        ttfb_ms: None,
        cookies_sent: None,
        cookies_stored: None,
        error: None,
        wire_bytes: None,
        content_encoding: None,
        bytes: None,
        trailing_bytes: None,
    }
}

/// The record of a request that is not made, and why.
pub open spec fn denied_record(r: RecordView, why: Seq<char>) -> RecordView {
    RecordView { allowed: false, reason: Some(why), ..r }
}

/// The other half of the exchange that a record began.
pub open spec fn response_record(r: RecordView) -> RecordView {
    RecordView { phase: Phase::Response, ..r }
}

impl RequestRecord {
    pub fn request(seq: u64, initiator: Initiator, method: &str, url: &str) -> (r: RequestRecord)
        ensures
            r@ == request_record(seq, initiator, method@, url@),
    {
        let r = RequestRecord {
            seq,
            phase: Phase::Request,
            initiator,
            method: method.to_owned(),
            url: url.to_owned(),
            allowed: true,
            reason: None,
            headers_overridden: Vec::new(),
            status: None,
            duration_ms: None,
            ttfb_ms: None,
            cookies_sent: None,
            cookies_stored: None,
            error: None,
            wire_bytes: None,
            content_encoding: None,
            bytes: None,
            trailing_bytes: None,
        };
        assert(r@ =~= request_record(seq, initiator, method@, url@));
        r
    }

    pub fn denied(self, why: &str) -> (r: RequestRecord)
        ensures
            r@ == denied_record(self@, why@),
    {
        RequestRecord { allowed: false, reason: Some(why.to_owned()), ..self }
    }

    pub fn response(&self) -> (r: RequestRecord)
        ensures
            r@ == response_record(self@),
    {
        RequestRecord {
            seq: self.seq,
            phase: Phase::Response,
            initiator: self.initiator,
            method: self.method.clone(),
            url: self.url.clone(),
            allowed: self.allowed,
            reason: copy_option(&self.reason),
            headers_overridden: copy_texts(&self.headers_overridden),
            status: self.status,
            duration_ms: self.duration_ms,
            ttfb_ms: self.ttfb_ms,
            cookies_sent: self.cookies_sent,
            cookies_stored: self.cookies_stored,
            error: copy_option(&self.error),
            wire_bytes: self.wire_bytes,
            content_encoding: copy_option(&self.content_encoding),
            bytes: self.bytes,
            trailing_bytes: self.trailing_bytes,
        }
    }
}

} // verus!
