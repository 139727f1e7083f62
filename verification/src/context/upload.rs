//! The course of an upload: what is asked of the outside next, whatever it answers.

use crate::context::oss::{
    authorization, creds_of, file_ref, grant_failure, grant_request, grant_retry_delay,
    lacks_fields, parse_status, parse_step, put_failure, put_request, read_grant, remote_ref,
    upstream_error, uri_encoded, Grant, ParseStep, PutRequest, StsCreds, UploadedFile,
};
use crate::error::{AppError, AppResult};
use crate::ident::uuid_of;
use crate::json::{object, Json, JsonView};
use vstd::prelude::*;

verus! {

/// How far an upload has come.
#[derive(Debug)]
pub enum Phase {
    /// A grant is asked for, for the time after so many failures.
    Asking(u32),
    /// The file is to be stored under a grant.
    Storing(Grant),
    /// The file is stored and being read, and this is how far that has come.
    Reading(Grant, String),
    /// The file has been read.
    Finished(Grant, String),
    /// The upload has failed.
    Failed,
}

/// An upload.
#[derive(Debug)]
pub struct UploadRun {
    filename: String,
    content_type: String,
    size: usize,
    phase: Phase,
}

/// What is done when a grant was asked for.
#[derive(Debug)]
pub enum GrantStep {
    /// Ask again after so many milliseconds.
    Retry(u64),
    /// Store the file.
    Store,
    /// Give up.
    Fail(AppError),
}

/// What the request that stores the file brought.
#[derive(Debug)]
pub enum PutOutcome {
    /// The file is stored.
    Stored,
    /// It was refused, with a status and an answer.
    Refused(String, String),
    /// Nobody answered, and why.
    Unreachable(String),
}

/// What is done when it was asked how far the reading has come.
#[derive(Debug)]
pub enum StatusStep {
    /// Nothing more.
    Finish,
    /// Ask again.
    Wait,
    /// Give up.
    Fail(AppError),
}

impl UploadRun {
    /// How far the upload has come.
    pub closed spec fn spec_phase(self) -> Phase {
        self.phase
    }

    /// The file that is uploaded: its name, its type and its size.
    pub closed spec fn spec_file(self) -> (Seq<char>, Seq<char>, int) {
        (self.filename@, self.content_type@, self.size as int)
    }

    /// An upload that has not begun.
    pub fn new(filename: &str, content_type: &str, size: usize) -> (r: UploadRun)
        ensures
            r.spec_phase() == Phase::Asking(0),
            r.spec_file() == (filename@, content_type@, size as int),
    {
        UploadRun {
            filename: filename.to_string(),
            content_type: content_type.to_string(),
            size,
            phase: Phase::Asking(0),
        }
    }

    /// What asks for a grant.
    pub fn grant_body(&self) -> (r: Json)
        ensures
            r@ == object().with("filename"@, JsonView::Str(self.spec_file().0)).with(
                "filesize"@,
                JsonView::Int(self.spec_file().2),
            ).with("filetype"@, JsonView::Str("file"@)),
    {
        grant_request(self.filename.as_str(), self.size)
    }

    /// A grant was asked for. A failure is tried again, three times in all; an answer is the
    /// grant, or says why there is none.
    pub fn on_grant(&mut self, answer: &Result<Json, String>) -> (r: GrantStep)
        requires
            old(self).spec_phase() matches Phase::Asking(n) && n < 3,
        ensures
            final(self).spec_file() == old(self).spec_file(),
            match *answer {
                Ok(v) => match v@.get("data"@) {
                    None => final(self).spec_phase() == Phase::Failed && (r matches
                        GrantStep::Fail(e) && upstream_error(
                        e,
                        "getstsToken response missing data"@,
                    )),
                    Some(d) => if lacks_fields(d) {
                        final(self).spec_phase() == Phase::Failed && (r matches
                            GrantStep::Fail(e) && upstream_error(
                            e,
                            "getstsToken response missing required fields"@,
                        ))
                    } else {
                        r == GrantStep::Store && (final(self).spec_phase() matches
                            Phase::Storing(g) && g.says(d))
                    },
                },
                Err(why) => {
                    let n = old(self).spec_phase()->Asking_0;
                    if n < 2 {
                        r == GrantStep::Retry((300 * (n + 1)) as u64)
                            && final(self).spec_phase() == Phase::Asking((n + 1) as u32)
                    } else {
                        final(self).spec_phase() == Phase::Failed && (r matches
                            GrantStep::Fail(e) && upstream_error(e, "getstsToken "@ + why@))
                    }
                },
            },
    {
        let n: u32 = match &self.phase {
            Phase::Asking(n) => *n,
            _ => 0,
        };
        match answer {
            Ok(v) => match read_grant(v) {
                Ok(grant) => {
                    self.phase = Phase::Storing(grant);
                    GrantStep::Store
                },
                Err(e) => {
                    self.phase = Phase::Failed;
                    GrantStep::Fail(e)
                },
            },
            Err(why) => match grant_retry_delay(n) {
                Some(ms) => {
                    self.phase = Phase::Asking(n + 1);
                    GrantStep::Retry(ms)
                },
                None => {
                    self.phase = Phase::Failed;
                    GrantStep::Fail(grant_failure(why.as_str()))
                },
            },
        }
    }

    /// The request that stores the file. `xdate` and `ymd` are the time and the day of now.
    pub fn put(&self, xdate: &str, ymd: &str) -> (r: PutRequest)
        requires
            self.spec_phase() is Storing,
        ensures
            ({
                let g = self.spec_phase()->Storing_0;
                &&& r.url@ == "https://"@ + g.bucket@ + "."@ + g.endpoint@ + "/"@ + uri_encoded(
                    g.file_path@,
                    false,
                )
                &&& r.date@ == xdate@
                &&& r.content_sha256@ == "UNSIGNED-PAYLOAD"@
                &&& r.security_token@ == g.token@
                &&& forall|creds: StsCreds|
                    creds_of(g, creds) ==> r.authorization@ == #[trigger] authorization(
                        creds,
                        g.bucket@,
                        g.file_path@,
                        self.spec_file().1,
                        xdate@,
                        ymd@,
                    )
            }),
    {
        match &self.phase {
            Phase::Storing(g) => put_request(g, self.content_type.as_str(), xdate, ymd),
            _ => PutRequest {
                url: String::new(),
                authorization: String::new(),
                date: String::new(),
                content_sha256: String::new(),
                security_token: String::new(),
            },
        }
    }

    /// The file was to be stored.
    pub fn on_put(&mut self, outcome: &PutOutcome) -> (r: AppResult<()>)
        requires
            old(self).spec_phase() is Storing,
        ensures
            final(self).spec_file() == old(self).spec_file(),
            match *outcome {
                PutOutcome::Stored => r is Ok && (final(self).spec_phase() matches
                    Phase::Reading(g, s) && g == old(self).spec_phase()->Storing_0 && s@
                    == "pending"@),
                PutOutcome::Refused(status, body) => final(self).spec_phase() == Phase::Failed
                    && (r matches Err(e) && upstream_error(
                    e,
                    "OSS PUT failed "@ + status@ + ": "@ + (if body@.len() > 200 {
                        body@.take(200)
                    } else {
                        body@
                    }),
                )),
                PutOutcome::Unreachable(why) => final(self).spec_phase() == Phase::Failed && (
                r matches Err(e) && upstream_error(e, "OSS PUT connection failed: "@ + why@)),
            },
    {
        let mut phase = Phase::Failed;
        std::mem::swap(&mut phase, &mut self.phase);
        match outcome {
            PutOutcome::Stored => {
                match phase {
                    Phase::Storing(g) => {
                        self.phase = Phase::Reading(g, "pending".to_string());
                    },
                    _ => {},
                }
                Ok(())
            },
            PutOutcome::Refused(status, body) => Err(put_failure(status.as_str(), body.as_str())),
            PutOutcome::Unreachable(why) => {
                let mut m = "OSS PUT connection failed: ".to_string();
                m.append(why.as_str());
                Err(AppError::Upstream(m))
            },
        }
    }

    /// It was asked how far the reading has come. What it has come to is kept; a success ends
    /// the waiting, and a failure the upload.
    pub fn on_status(&mut self, answer: &Json) -> (r: StatusStep)
        requires
            old(self).spec_phase() is Reading,
        ensures
            final(self).spec_file() == old(self).spec_file(),
            ({
                let g = old(self).spec_phase()->Reading_0;
                let before = old(self).spec_phase()->Reading_1;
                match parse_status(answer@) {
                    Some(s) => if s == "success"@ {
                        r == StatusStep::Finish && (final(self).spec_phase() matches
                            Phase::Finished(g2, t) && g2 == g && t@ == "success"@)
                    } else if s == "failed"@ || s == "error"@ {
                        final(self).spec_phase() == Phase::Failed && (r matches
                            StatusStep::Fail(e) && upstream_error(
                            e,
                            "File parse failed status="@ + s,
                        ))
                    } else {
                        r == StatusStep::Wait && (final(self).spec_phase() matches
                            Phase::Reading(g2, t) && g2 == g && t@ == s)
                    },
                    None => r == StatusStep::Wait && final(self).spec_phase()
                        == old(self).spec_phase(),
                }
            }),
    {
        let mut phase = Phase::Failed;
        std::mem::swap(&mut phase, &mut self.phase);
        match phase {
            Phase::Reading(g, before) => match parse_step(answer) {
                ParseStep::Finished => {
                    self.phase = Phase::Finished(g, "success".to_string());
                    StatusStep::Finish
                },
                ParseStep::Failed(e) => StatusStep::Fail(e),
                ParseStep::Again(Some(s)) => {
                    self.phase = Phase::Reading(g, s);
                    StatusStep::Wait
                },
                ParseStep::Again(None) => {
                    self.phase = Phase::Reading(g, before);
                    StatusStep::Wait
                },
            },
            _ => StatusStep::Finish,
        }
    }

    /// The identifier under which the stored file is read.
    pub fn file_id(&self) -> (r: &str)
        requires
            self.spec_phase() is Reading,
        ensures
            r@ == (self.spec_phase()->Reading_0).file_id@,
    {
        match &self.phase {
            Phase::Reading(g, _) => g.file_id.as_str(),
            _ => "",
        }
    }

    /// The reference by which the file is spoken of. It tells how far the reading had come:
    /// the waiting may have ended before it.
    pub fn reference(&self, now_ms: i64) -> (r: Json)
        requires
            self.spec_phase() is Reading || self.spec_phase() is Finished,
        ensures
            exists|a: u64, b: u64, c: u64, d: u64|
                self.is_reference(
                    r@,
                    now_ms as int,
                    #[trigger] uuid_of(a as int, b as int),
                    #[trigger] uuid_of(c as int, d as int),
                ),
    {
        match &self.phase {
            Phase::Reading(g, s) => self.refer(g, s.as_str(), now_ms),
            Phase::Finished(g, s) => self.refer(g, s.as_str(), now_ms),
            _ => Json::Null,
        }
    }

    /// The grant of a stored file.
    pub open spec fn spec_grant(self) -> Grant {
        match self.spec_phase() {
            Phase::Reading(g, _) => g,
            Phase::Finished(g, _) => g,
            Phase::Storing(g) => g,
            _ => arbitrary(),
        }
    }

    /// How far the reading of a stored file has come.
    pub open spec fn spec_status(self) -> Seq<char> {
        match self.spec_phase() {
            Phase::Reading(_, s) => s@,
            Phase::Finished(_, s) => s@,
            _ => Seq::empty(),
        }
    }

    /// A value is the reference by which the file is spoken of.
    pub open spec fn is_reference(
        self,
        v: JsonView,
        now_ms: int,
        item: Seq<char>,
        task: Seq<char>,
    ) -> bool {
        exists|f: UploadedFile|
            {
                &&& f.filename@ == self.spec_file().0
                &&& f.content_type@ == self.spec_file().1
                &&& f.size == self.spec_file().2
                &&& f.parse_status@ == self.spec_status()
                &&& f.uploaded_at == now_ms
                &&& v == #[trigger] file_ref(self.spec_grant(), f, item, task)
            }
    }

    fn refer(&self, g: &Grant, status: &str, now_ms: i64) -> (r: Json)
        requires
            *g == self.spec_grant(),
            status@ == self.spec_status(),
        ensures
            exists|a: u64, b: u64, c: u64, d: u64|
                self.is_reference(
                    r@,
                    now_ms as int,
                    #[trigger] uuid_of(a as int, b as int),
                    #[trigger] uuid_of(c as int, d as int),
                ),
    {
        let file = UploadedFile {
            filename: self.filename.as_str(),
            size: self.size,
            content_type: self.content_type.as_str(),
            parse_status: status,
            uploaded_at: now_ms,
        };
        let r = remote_ref(g, &file);
        proof {
            let (a, b, c, d) = choose|a: u64, b: u64, c: u64, d: u64|
                r@ == file_ref(
                    *g,
                    file,
                    #[trigger] uuid_of(a as int, b as int),
                    #[trigger] uuid_of(c as int, d as int),
                );
            assert(self.is_reference(
                r@,
                now_ms as int,
                uuid_of(a as int, b as int),
                uuid_of(c as int, d as int),
            ));
        }
        r
    }
}

} // verus!
