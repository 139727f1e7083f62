//! Making an image or a video: trying again, and passing over accounts that cannot.

use crate::media::kind::MediaKind;
use crate::media::urls::{links, scrape_urls};
use crate::request::StandardRequest;
use crate::text::{contains_text, decimal_digits, decimal_text, occurs, opt_string, texts};
use crate::text_set::TextSet;
use crate::upstream::payload::ImageOptions;
use vstd::prelude::*;

verus! {

/// What came of making an image or a video.
#[derive(Debug)]
pub struct GenOutcome {
    pub urls: Vec<String>,
    pub attempts: u32,
    pub error: Option<String>,
    /// How many accounts were found out to be unable to make videos.
    pub newly_marked_no_t2v: usize,
}

/// What a completion brought.
#[derive(Debug)]
pub struct Completion {
    pub error: Option<String>,
    pub content: String,
    pub email: Option<String>,
}

/// How far the making has come.
#[derive(Debug)]
pub enum Progress {
    /// Another attempt is to be made.
    Trying,
    /// It has been made.
    Found(Vec<String>),
    /// It cannot be made.
    GivenUp,
}

/// The making of one image or video.
#[derive(Debug)]
pub struct Generation {
    kind: MediaKind,
    attempts: u32,
    attempt: u32,
    exclude: TextSet,
    newly_marked: TextSet,
    initial_skipped: usize,
    last_error: Option<String>,
    progress: Progress,
}

/// How far the making has come, as values.
pub enum ProgressView {
    Trying,
    Found(Seq<Seq<char>>),
    GivenUp,
}

impl View for Progress {
    type V = ProgressView;

    open spec fn view(&self) -> ProgressView {
        match self {
            Progress::Trying => ProgressView::Trying,
            Progress::Found(urls) => ProgressView::Found(texts(urls@)),
            Progress::GivenUp => ProgressView::GivenUp,
        }
    }
}

/// The making of an image or video, as values: the attempts that may be made and the one that
/// is next or was the last, the accounts to pass over and those of them that this making
/// found, how many it began with, and the last thing that went wrong.
#[verifier::ext_equal]
pub struct GenView {
    pub kind: MediaKind,
    pub attempts: int,
    pub attempt: int,
    pub exclude: Set<Seq<char>>,
    pub newly_marked: Set<Seq<char>>,
    pub initial_skipped: int,
    pub last_error: Option<Seq<char>>,
    pub progress: ProgressView,
}

impl View for Generation {
    type V = GenView;

    closed spec fn view(&self) -> GenView {
        GenView {
            kind: self.kind,
            attempts: self.attempts as int,
            attempt: self.attempt as int,
            exclude: self.exclude@,
            newly_marked: self.newly_marked@,
            initial_skipped: self.initial_skipped as int,
            last_error: opt_string(self.last_error),
            progress: self.progress@,
        }
    }
}

impl GenView {
    /// Another attempt is to be made, and may be.
    pub open spec fn is_trying(self) -> bool {
        self.progress is Trying
    }

    /// What holds at all times: attempts are counted from one on up to as many as may be made,
    /// and none is without a reason to have failed; accounts that were found are passed over;
    /// nobody is passed over for an image.
    pub open spec fn wf(self) -> bool {
        &&& 1 <= self.attempt <= self.attempts <= u32::MAX
        &&& self.newly_marked.subset_of(self.exclude)
        &&& self.exclude.finite() && self.newly_marked.finite()
        &&& self.kind == MediaKind::Image ==> self.exclude =~= Set::<Seq<char>>::empty()
        &&& self.attempt > 1 || self.progress is GivenUp ==> self.last_error is Some
        &&& self.progress matches ProgressView::Found(urls) ==> urls.len() > 0
    }

    /// All accounts that could be tried are passed over.
    pub open spec fn nobody_left(self, valid: int) -> bool {
        self.kind == MediaKind::Video && valid > 0 && self.exclude.len() >= valid
    }

    /// Before an attempt, with so many accounts that could be tried: where all of them are
    /// passed over, it is given up.
    pub open spec fn checked(self, valid: int) -> GenView {
        if self.nobody_left(valid) {
            GenView {
                last_error: Some("no remaining accounts with t2v access to try"@),
                progress: ProgressView::GivenUp,
                ..self
            }
        } else {
            self
        }
    }

    /// Behind a failed attempt: the next one, where one is left.
    pub open spec fn advanced(self, error: Seq<char>) -> GenView {
        if self.attempt < self.attempts {
            GenView { last_error: Some(error), attempt: self.attempt + 1, ..self }
        } else {
            GenView { last_error: Some(error), progress: ProgressView::GivenUp, ..self }
        }
    }

    /// With an account marked as unable to make videos, where one was used for a video.
    pub open spec fn marked(self, email: Option<Seq<char>>) -> GenView {
        match email {
            Some(e) => if self.kind == MediaKind::Video && !self.exclude.contains(e) {
                GenView {
                    exclude: self.exclude.insert(e),
                    newly_marked: self.newly_marked.insert(e),
                    ..self
                }
            } else {
                self
            },
            None => self,
        }
    }

    /// Behind an attempt: an error that no other account could mend gives up, another error
    /// leads to the next attempt; an answer with links has made it; an answer without marks
    /// the account and leads to the next attempt.
    pub open spec fn judged(
        self,
        error: Option<Seq<char>>,
        content: Seq<char>,
        email: Option<Seq<char>>,
    ) -> GenView {
        match error {
            Some(e) => if occurs(e, "no available Qwen accounts"@) || occurs(
                e,
                "no remaining accounts"@,
            ) {
                GenView { last_error: Some(e), progress: ProgressView::GivenUp, ..self }
            } else {
                self.advanced(e)
            },
            None => if links(content, self.kind).len() > 0 {
                GenView { progress: ProgressView::Found(links(content, self.kind)), ..self }
            } else {
                self.marked(email).advanced(no_url_error(self.kind))
            },
        }
    }

    /// Why it could not be made.
    pub open spec fn final_error(self) -> Seq<char> {
        let last = match self.last_error {
            Some(e) => e,
            None => "none"@,
        };
        if self.kind == MediaKind::Video {
            "video generation failed: no URL after "@ + decimal_digits(self.attempts)
                + " attempts (newly skipped "@ + decimal_digits(self.newly_marked.len() as int)
                + " accounts without t2v access; previously skipped "@ + decimal_digits(
                self.initial_skipped,
            )
                + "). Upstream returned an empty result, which usually means the account does not have t2v access. Last error: "@
                + last
        } else {
            last
        }
    }
}

/// The complaint that an answer holds no link.
pub open spec fn no_url_error(kind: MediaKind) -> Seq<char> {
    match kind {
        MediaKind::Image => "upstream did not return a image URL"@,
        MediaKind::Video => "upstream did not return a video URL"@,
    }
}

/// The beginning of the making.
pub open spec fn begun(kind: MediaKind, max_attempts: int, skip: Set<Seq<char>>) -> GenView {
    let exclude = if kind == MediaKind::Video {
        skip
    } else {
        Set::empty()
    };
    GenView {
        kind,
        attempts: if max_attempts < 1 {
            1
        } else {
            max_attempts
        },
        attempt: 1,
        exclude,
        newly_marked: Set::empty(),
        initial_skipped: exclude.len() as int,
        last_error: None,
        progress: ProgressView::Trying,
    }
}

fn no_url_text(kind: MediaKind) -> (r: &'static str)
    ensures
        r@ == no_url_error(kind),
{
    match kind {
        MediaKind::Image => "upstream did not return a image URL",
        MediaKind::Video => "upstream did not return a video URL",
    }
}

impl Generation {
    /// The beginning of the making: at least one attempt is made, and accounts that are known
    /// to be unable are passed over for a video.
    pub fn new(kind: MediaKind, max_attempts: u32, skip: TextSet) -> (r: Generation)
        ensures
            r@ == begun(kind, max_attempts as int, skip@),
            r@.wf(),
    {
        let exclude = if kind == MediaKind::Video {
            skip
        } else {
            TextSet::new()
        };
        let initial_skipped: usize = exclude.len();
        let newly_marked = TextSet::new();
        Generation {
            kind,
            attempts: if max_attempts < 1 {
                1
            } else {
                max_attempts
            },
            attempt: 1,
            exclude,
            newly_marked,
            initial_skipped,
            last_error: None,
            progress: Progress::Trying,
        }
    }

    /// Whether another attempt is to be made, with so many accounts that could be tried.
    pub fn before_attempt(&mut self, valid: u64) -> (r: bool)
        requires
            old(self)@.is_trying(),
            old(self)@.wf(),
        ensures
            final(self)@ == old(self)@.checked(valid as int),
            final(self)@.wf(),
            r == final(self)@.is_trying(),
    {
        if self.kind == MediaKind::Video && valid > 0 && self.exclude.len() as u64 >= valid {
            self.last_error = Some("no remaining accounts with t2v access to try".to_string());
            self.progress = Progress::GivenUp;
            return false;
        }
        true
    }

    /// The accounts to pass over in the next attempt.
    pub fn excluded(&self) -> (r: TextSet)
        ensures
            r@ == self@.exclude,
    {
        self.exclude.copy()
    }

    /// The accounts that were found out to be unable to make videos.
    pub fn marked(&self) -> (r: TextSet)
        ensures
            r@ == self@.newly_marked,
    {
        self.newly_marked.copy()
    }

    /// Goes on to the next attempt, where one is left.
    fn advance(&mut self, error: &str)
        requires
            old(self)@.attempt <= old(self)@.attempts,
        ensures
            final(self)@ == old(self)@.advanced(error@),
    {
        self.last_error = Some(error.to_string());
        if self.attempt < self.attempts {
            self.attempt = self.attempt + 1;
        } else {
            self.progress = Progress::GivenUp;
        }
    }

    /// Marks the account that was used for a video.
    fn mark(&mut self, email: &Option<String>)
        ensures
            final(self)@ == old(self)@.marked(opt_string(*email)),
    {
        match email {
            Some(e) => if self.kind == MediaKind::Video && !self.exclude.contains(e.as_str()) {
                self.exclude.insert(e.as_str());
                self.newly_marked.insert(e.as_str());
            },
            None => {},
        }
    }

    /// Judges an attempt by what it brought. Returns whether another one is to be made.
    pub fn after_attempt(&mut self, c: &Completion) -> (r: bool)
        requires
            old(self)@.is_trying(),
            old(self)@.wf(),
        ensures
            final(self)@ == old(self)@.judged(
                opt_string(c.error),
                c.content@,
                opt_string(c.email),
            ),
            final(self)@.wf(),
            r == final(self)@.is_trying(),
    {
        match &c.error {
            Some(e) => {
                if contains_text(e.as_str(), "no available Qwen accounts") || contains_text(
                    e.as_str(),
                    "no remaining accounts",
                ) {
                    self.last_error = Some(e.as_str().to_string());
                    self.progress = Progress::GivenUp;
                    return false;
                }
                self.advance(e.as_str());
            },
            None => {
                let urls = scrape_urls(c.content.as_str(), self.kind);
                proof {
                    assert(urls@.len() == links(c.content@, self.kind).len());
                }
                if urls.len() > 0 {
                    self.progress = Progress::Found(urls);
                    return false;
                }
                self.mark(&c.email);
                self.advance(no_url_text(self.kind));
            },
        }
        match self.progress {
            Progress::Trying => true,
            _ => false,
        }
    }

    /// What came of it: the links and the attempts that it took, or why it could not be made
    /// and the attempts that there were.
    pub fn outcome(self) -> (r: GenOutcome)
        requires
            !self@.is_trying(),
            self@.wf(),
        ensures
            match self@.progress {
                ProgressView::Found(urls) => texts(r.urls@) == urls && r.attempts
                    == self@.attempt && r.error is None,
                _ => r.urls@.len() == 0 && r.attempts == self@.attempts && opt_string(r.error)
                    == Some(self@.final_error()),
            },
            r.newly_marked_no_t2v == self@.newly_marked.len(),
    {
        let marked: usize = self.newly_marked.len();
        match self.progress {
            Progress::Found(urls) => GenOutcome {
                urls,
                attempts: self.attempt,
                error: None,
                newly_marked_no_t2v: marked,
            },
            _ => {
                let last = match self.last_error {
                    Some(e) => e,
                    None => "none".to_string(),
                };
                let error = if self.kind == MediaKind::Video {
                    let mut m = "video generation failed: no URL after ".to_string();
                    m.append(decimal_text(self.attempts as u64).as_str());
                    m.append(" attempts (newly skipped ");
                    m.append(decimal_text(marked as u64).as_str());
                    m.append(" accounts without t2v access; previously skipped ");
                    m.append(decimal_text(self.initial_skipped as u64).as_str());
                    m.append(
                        "). Upstream returned an empty result, which usually means the account does not have t2v access. Last error: ",
                    );
                    m.append(last.as_str());
                    m
                } else {
                    last
                };
                GenOutcome {
                    urls: Vec::new(),
                    attempts: self.attempts,
                    error: Some(error),
                    newly_marked_no_t2v: marked,
                }
            },
        }
    }
}

// ---------------------------------------------------------------------------
// What holds of every making
// ---------------------------------------------------------------------------

/// What an attempt brings.
pub struct Event {
    pub valid: int,
    pub error: Option<Seq<char>>,
    pub content: Seq<char>,
    pub email: Option<Seq<char>>,
}

/// The making behind one attempt, which is made only where it is not given up before.
pub open spec fn attempted(g: GenView, ev: Event) -> GenView {
    let c = g.checked(ev.valid);
    if c.is_trying() {
        c.judged(ev.error, ev.content, ev.email)
    } else {
        c
    }
}

/// An attempt comes nearer to the end: it ends the making, or there is one fewer left. So no
/// more attempts are made than were allowed, whatever they bring.
pub proof fn attempts_are_bounded(g: GenView, ev: Event)
    requires
        g.wf(),
        g.is_trying(),
    ensures
        attempted(g, ev).wf(),
        attempted(g, ev).attempts == g.attempts,
        attempted(g, ev).is_trying() ==> attempted(g, ev).attempt == g.attempt + 1,
{
}

/// An account that was passed over stays passed over, and those that are marked were not
/// passed over before: no account is marked twice, and none is marked for an image.
pub proof fn accounts_stay_excluded(g: GenView, ev: Event)
    requires
        g.wf(),
        g.is_trying(),
    ensures
        g.exclude.subset_of(attempted(g, ev).exclude),
        attempted(g, ev).newly_marked.difference(g.newly_marked).disjoint(g.exclude),
        g.kind == MediaKind::Image ==> attempted(g, ev).newly_marked =~= g.newly_marked,
{
}

/// A video is made only with links to videos, an image only with links to images.
pub proof fn found_links_lead_there(g: GenView, ev: Event)
    requires
        g.wf(),
        g.is_trying(),
    ensures
        attempted(g, ev).progress matches ProgressView::Found(urls) ==> urls == links(
            ev.content,
            g.kind,
        ) && urls.len() > 0 && ev.error is None,
{
}

/// The making behind a number of attempts.
pub open spec fn after_attempts(g: GenView, evs: Seq<Event>) -> GenView
    decreases evs.len(),
{
    if evs.len() == 0 {
        g
    } else {
        let before = after_attempts(g, evs.drop_last());
        if before.is_trying() {
            attempted(before, evs.last())
        } else {
            before
        }
    }
}

/// The accounts that are passed over are, at all times of a making, those that were known before
/// it and those that it has marked.
pub proof fn passed_over_are_known_or_marked(
    kind: MediaKind,
    max_attempts: u32,
    skip: Set<Seq<char>>,
    evs: Seq<Event>,
)
    ensures
        ({
            let first = begun(kind, max_attempts as int, skip);
            let g = after_attempts(first, evs);
            &&& g.exclude == first.exclude.union(g.newly_marked)
            &&& g.newly_marked.disjoint(first.exclude)
            &&& kind == MediaKind::Video ==> first.exclude == skip
            &&& kind == MediaKind::Image ==> g.exclude == Set::<Seq<char>>::empty()
        }),
    decreases evs.len(),
{
    let first = begun(kind, max_attempts as int, skip);
    let g = after_attempts(first, evs);
    if evs.len() > 0 {
        passed_over_are_known_or_marked(kind, max_attempts, skip, evs.drop_last());
        let before = after_attempts(first, evs.drop_last());
        lemma_same_kind(first, evs.drop_last());
        assert(g.exclude =~= first.exclude.union(g.newly_marked));
    } else {
        assert(g.exclude =~= first.exclude.union(g.newly_marked));
    }
}

proof fn lemma_same_kind(g: GenView, evs: Seq<Event>)
    ensures
        after_attempts(g, evs).kind == g.kind,
    decreases evs.len(),
{
    if evs.len() > 0 {
        lemma_same_kind(g, evs.drop_last());
    }
}

/// A making ends: as many attempts as are allowed end it, whatever they bring; and it then
/// either has links or a reason why it has none.
pub proof fn every_making_ends(
    kind: MediaKind,
    max_attempts: u32,
    skip: Set<Seq<char>>,
    evs: Seq<Event>,
)
    requires
        skip.finite(),
    ensures
        ({
            let g = after_attempts(begun(kind, max_attempts as int, skip), evs);
            &&& g.wf()
            &&& g.is_trying() ==> evs.len() < g.attempts
            &&& g.progress is GivenUp ==> g.last_error is Some
            &&& g.kind == kind
        }),
{
    lemma_attempts_count(begun(kind, max_attempts as int, skip), evs);
}

proof fn lemma_attempts_count(g: GenView, evs: Seq<Event>)
    requires
        g.wf(),
        g.attempt == 1,
    ensures
        after_attempts(g, evs).wf(),
        after_attempts(g, evs).attempts == g.attempts,
        after_attempts(g, evs).kind == g.kind,
        after_attempts(g, evs).is_trying() ==> after_attempts(g, evs).attempt == evs.len() + 1,
    decreases evs.len(),
{
    if evs.len() > 0 {
        lemma_attempts_count(g, evs.drop_last());
        let before = after_attempts(g, evs.drop_last());
        if before.is_trying() {
            attempts_are_bounded(before, evs.last());
        }
    }
}

/// The request that one attempt makes.
pub fn media_request(
    prompt: &str,
    kind: MediaKind,
    resolved_model: &str,
    options: ImageOptions,
    caller: Option<String>,
    exclude: TextSet,
) -> (r: StandardRequest)
    ensures
        r.response_model@ == (match kind {
            MediaKind::Image => "qwen-image"@,
            MediaKind::Video => "qwen-video"@,
        }),
        r.resolved_model@ == resolved_model@,
        r.prompt@ == prompt@,
        !r.stream,
        r.thinking_enabled == Some(false),
        !r.force_thinking,
        !r.enable_search,
        r.chat_type@ == kind.spec_chat_type(),
        r.tools@.len() == 0,
        r.tool_names@.len() == 0,
        r.surface@ == kind.spec_surface(),
        r.image_options == Some(options),
        r.max_tokens is None,
        r.client_profile@ == "generic"@,
        r.files@.len() == 0,
        r.bound_account is None,
        r.caller == caller,
        r.exclude_accounts == exclude,
{
    let response_model = match kind {
        MediaKind::Image => "qwen-image",
        MediaKind::Video => "qwen-video",
    };
    StandardRequest {
        response_model: response_model.to_string(),
        resolved_model: resolved_model.to_string(),
        prompt: prompt.to_string(),
        stream: false,
        thinking_enabled: Some(false),
        force_thinking: false,
        enable_search: false,
        chat_type: kind.chat_type().to_string(),
        tools: Vec::new(),
        tool_names: Vec::new(),
        surface: kind.surface().to_string(),
        image_options: Some(options),
        max_tokens: None,
        client_profile: "generic".to_string(),
        files: Vec::new(),
        bound_account: None,
        caller,
        exclude_accounts: exclude,
    }
}

} // verus!
