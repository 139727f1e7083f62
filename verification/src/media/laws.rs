//! What comes of asking for images and videos, told by what was asked and what was answered.

use crate::json::{Json, JsonView};
use crate::json_text::json_parse;
use crate::media::generate::{
    begun, media_request, no_url_error, Completion, GenOutcome, GenView, Generation, ProgressView,
};
use crate::media::kind::{kind_names_round_trip, MediaKind};
use crate::media::task::{
    backup_entry, backup_urls, backups, dispatch_free, dispatch_taken, last_error, list_limit,
    params_to_count, params_to_image_options, plan_task, settle_task, task_list, task_results,
    task_row, total_attempts, Dispatch, MediaQueue, MediaStore, MediaTask, TaskEnd, TaskPlan,
    TaskRow, TaskRun,
};
use crate::media::urls::{
    bare_link, guess_ext, is_sentence_end, leads_to, links, links_among, mark_text, scrape_urls,
};
use crate::request::StandardRequest;
use crate::text::{
    after_last, ascii_lower, before_first, begins_with, decimal_digits, ends_in, lower, occurs,
    same_ignoring_case, stands_at, texts,
};
use crate::text_laws::{gathered, lemma_ending};
use crate::text_set::TextSet;
use crate::toolcall::mark_laws::{links_run_to_their_end, scheme};
use crate::toolcall::markers::{ends_link, spans, Marker, SpanView};
use crate::upstream::payload::ImageOptions;
use vstd::prelude::*;
use vstd::utf8::*;

verus! {

// ---------------------------------------------------------------------------
// Links
// ---------------------------------------------------------------------------

/// The end of a sentence is cut off a link, and nothing more.
pub proof fn sentences_end_behind_links(link: Seq<char>, end: Seq<char>)
    requires
        link.len() > 0 ==> link.last() != '.' && link.last() != ',' && link.last() != ')'
            && link.last() != ']',
        forall|i: int|
            0 <= i < end.len() ==> #[trigger] end[i] == '.' || end[i] == ',' || end[i] == ')'
                || end[i] == ']',
    ensures
        bare_link(link + end) == link,
    decreases end.len(),
{
    let u = link + end;
    if end.len() > 0 {
        let rest = end.drop_last();
        assert(u.drop_last() =~= link + rest);
        assert(u.last() == end[end.len() - 1]);
        assert forall|i: int| 0 <= i < rest.len() implies #[trigger] rest[i] == '.'
            || rest[i] == ',' || rest[i] == ')' || rest[i] == ']' by {
            assert(rest[i] == end[i]);
        }
        sentences_end_behind_links(link, rest);
    } else {
        assert(u =~= link);
    }
}

/// A link leads to an image by where it leads or by its ending, and to a video likewise.
pub proof fn links_are_told_by_their_words(low: Seq<char>)
    ensures
        occurs(low, "cdn.qwenlm.ai"@) ==> leads_to(low, MediaKind::Image) && leads_to(
            low,
            MediaKind::Video,
        ),
        occurs(low, "alicdn.com"@) || occurs(low, "/t2i/"@) || occurs(low, ".png"@) || occurs(
            low,
            ".jpg"@,
        ) || occurs(low, ".jpeg"@) || occurs(low, ".webp"@) || occurs(low, ".gif"@) ==> leads_to(
            low,
            MediaKind::Image,
        ),
        occurs(low, "/t2v/"@) || occurs(low, ".mp4"@) || occurs(low, ".webm"@) || occurs(
            low,
            ".mov"@,
        ) ==> leads_to(low, MediaKind::Video),
        leads_to(low, MediaKind::Image) ==> occurs(low, "cdn.qwenlm.ai"@) || occurs(
            low,
            "alicdn.com"@,
        ) || occurs(low, "/t2i/"@) || occurs(low, ".png"@) || occurs(low, ".jpg"@) || occurs(
            low,
            ".jpeg"@,
        ) || occurs(low, ".webp"@) || occurs(low, ".gif"@),
        leads_to(low, MediaKind::Video) ==> occurs(low, "cdn.qwenlm.ai"@) || occurs(low, "/t2v/"@)
            || occurs(low, ".mp4"@) || occurs(low, ".webm"@) || occurs(low, ".mov"@),
{
}

/// Every link of a text that leads to what is sought is found, and nothing else is.
pub proof fn all_links_are_found(b: Seq<u8>, marks: Seq<SpanView>, kind: MediaKind, u: Seq<char>)
    ensures
        links_among(b, marks, kind).contains(u) <==> leads_to(lower(u), kind) && exists|i: int|
            0 <= i < marks.len() && bare_link(
                decode_utf8(b.subrange((#[trigger] marks[i]).start, marks[i].end)),
            ) == u,
    decreases marks.len(),
{
    if marks.len() > 0 {
        let rest = marks.drop_last();
        let last = bare_link(mark_text(b, marks.last()));
        let seen = links_among(b, rest, kind);
        let all = links_among(b, marks, kind);
        all_links_are_found(b, rest, kind, u);
        assert(marks.last() == marks[marks.len() - 1]);
        if all.contains(u) {
            let k = choose|k: int| 0 <= k < all.len() && all[k] == u;
            if k < seen.len() {
                assert(seen[k] == u);
                assert(seen.contains(u));
            }
            if seen.contains(u) {
                let i = choose|i: int|
                    0 <= i < rest.len() && bare_link(
                        decode_utf8(b.subrange((#[trigger] rest[i]).start, rest[i].end)),
                    ) == u;
                assert(marks[i] == rest[i]);
            }
        }
        if leads_to(lower(u), kind) && exists|i: int|
            0 <= i < marks.len() && bare_link(
                decode_utf8(b.subrange((#[trigger] marks[i]).start, marks[i].end)),
            ) == u {
            let i = choose|i: int|
                0 <= i < marks.len() && bare_link(
                    decode_utf8(b.subrange((#[trigger] marks[i]).start, marks[i].end)),
                ) == u;
            if i < rest.len() {
                assert(rest[i] == marks[i]);
                assert(seen.contains(u));
            }
            if seen.contains(u) {
                let k = choose|k: int| 0 <= k < seen.len() && seen[k] == u;
                assert(all[k] == u);
            } else {
                assert(all[seen.len() as int] == u);
            }
        }
    }
}

/// A known extension of images and videos.
pub open spec fn known_extension(ext: Seq<char>) -> bool {
    ||| ext == "png"@
    ||| ext == "jpg"@
    ||| ext == "jpeg"@
    ||| ext == "webp"@
    ||| ext == "gif"@
    ||| ext == "mp4"@
    ||| ext == "webm"@
    ||| ext == "mov"@
}

/// The extension of a link is what stands behind the last dot before its query, in lower case,
/// where that is a known one; else a PNG is taken for an image and an MP4 for a video.
pub proof fn extensions_stand_before_the_query(url: &str, kind: MediaKind, r: &'static str)
    requires
        call_ensures(guess_ext, (url, kind), r),
    ensures
        ({
            let low = lower(before_first(url@, '?'));
            &&& low.contains('.') && known_extension(after_last(low, '.')) ==> r@ == after_last(
                low,
                '.',
            )
            &&& !(low.contains('.') && known_extension(after_last(low, '.'))) ==> match kind {
                MediaKind::Image => r@ == "png"@,
                MediaKind::Video => r@ == "mp4"@,
            }
        }),
{
    let low = lower(before_first(url@, '?'));
    reveal_strlit(".png");
    reveal_strlit("png");
    assert(".png"@ =~= seq!['.'] + "png"@);
    lemma_ending(low, ".png"@, "png"@);
    reveal_strlit(".jpg");
    reveal_strlit("jpg");
    assert(".jpg"@ =~= seq!['.'] + "jpg"@);
    lemma_ending(low, ".jpg"@, "jpg"@);
    reveal_strlit(".jpeg");
    reveal_strlit("jpeg");
    assert(".jpeg"@ =~= seq!['.'] + "jpeg"@);
    lemma_ending(low, ".jpeg"@, "jpeg"@);
    reveal_strlit(".webp");
    reveal_strlit("webp");
    assert(".webp"@ =~= seq!['.'] + "webp"@);
    lemma_ending(low, ".webp"@, "webp"@);
    reveal_strlit(".gif");
    reveal_strlit("gif");
    assert(".gif"@ =~= seq!['.'] + "gif"@);
    lemma_ending(low, ".gif"@, "gif"@);
    reveal_strlit(".mp4");
    reveal_strlit("mp4");
    assert(".mp4"@ =~= seq!['.'] + "mp4"@);
    lemma_ending(low, ".mp4"@, "mp4"@);
    reveal_strlit(".webm");
    reveal_strlit("webm");
    assert(".webm"@ =~= seq!['.'] + "webm"@);
    lemma_ending(low, ".webm"@, "webm"@);
    reveal_strlit(".mov");
    reveal_strlit("mov");
    assert(".mov"@ =~= seq!['.'] + "mov"@);
    lemma_ending(low, ".mov"@, "mov"@);
}

// ---------------------------------------------------------------------------
// Kinds
// ---------------------------------------------------------------------------

/// A video is asked for by its name, in capitals or not, or by the upstream's word for it; all
/// else is an image. The names of a kind are the upstream's and the clients'.
pub proof fn kinds_are_told_by_their_names(
    s: &str,
    r: MediaKind,
    kind: MediaKind,
    name: &'static str,
    chat_type: &'static str,
    surface: &'static str,
    ext: &'static str,
)
    requires
        call_ensures(MediaKind::parse, (s,), r),
        call_ensures(MediaKind::as_str, (&kind,), name),
        call_ensures(MediaKind::chat_type, (&kind,), chat_type),
        call_ensures(MediaKind::surface, (&kind,), surface),
        call_ensures(MediaKind::default_ext, (&kind,), ext),
    ensures
        s@ == "t2v"@ || s@ == "video"@ ==> r == MediaKind::Video,
        s@ == "t2i"@ || s@ == "image"@ ==> r == MediaKind::Image,
        s@.len() == 5 && (forall|i: int|
            0 <= i < 5 ==> s@[i] == "video"@[i] || s@[i] as u32 + 32 == "video"@[i] as u32)
            ==> r == MediaKind::Video,
        s@.len() != 5 && s@ != "t2v"@ ==> r == MediaKind::Image,
        s@ == name@ ==> r == kind,
        s@ == chat_type@ ==> r == kind,
        kind == MediaKind::Image ==> chat_type@ == "t2i"@ && surface@ == "images"@ && ext@ == "png"@
            && name@ == "image"@,
        kind == MediaKind::Video ==> chat_type@ == "t2v"@ && surface@ == "videos"@ && ext@ == "mp4"@
            && name@ == "video"@,
{
    reveal_strlit("t2v");
    reveal_strlit("t2i");
    reveal_strlit("video");
    reveal_strlit("image");
    assert("t2v"@.len() == 3 && "t2v"@[2] == 'v');
    assert("t2i"@.len() == 3 && "t2i"@[2] == 'i');
    assert("video"@.len() == 5 && "video"@[0] == 'v');
    assert("image"@.len() == 5 && "image"@[0] == 'i');
    assert("video"@[0] == 'v' && "video"@[1] == 'i' && "video"@[2] == 'd' && "video"@[3] == 'e'
        && "video"@[4] == 'o');
    kind_names_round_trip(kind);
    kind_names_round_trip(MediaKind::Image);
    kind_names_round_trip(MediaKind::Video);
    let low = |c: char| ascii_lower(c);
    assert("video"@.map_values(low).len() == "video"@.len());
    assert(s@.map_values(low).len() == s@.len());
    if s@.len() == 5 && (forall|i: int|
        0 <= i < 5 ==> s@[i] == "video"@[i] || s@[i] as u32 + 32 == "video"@[i] as u32) {
        assert forall|i: int| 0 <= i < 5 implies ascii_lower(s@[i]) == ascii_lower("video"@[i]) by {
            assert('a' <= "video"@[i] <= 'z');
        }
        assert(s@.map_values(low) =~= "video"@.map_values(low));
        assert(same_ignoring_case(s@, "video"@));
    }
}

// ---------------------------------------------------------------------------
// Making
// ---------------------------------------------------------------------------

/// The making begins with at least one attempt, with nothing gone wrong, and passes over the
/// accounts that are known to be unable exactly for a video.
pub proof fn making_begins_fresh(kind: MediaKind, max_attempts: int, skip: Set<Seq<char>>)
    ensures
        ({
            let g = begun(kind, max_attempts, skip);
            &&& g.kind == kind
            &&& max_attempts >= 1 ==> g.attempts == max_attempts
            &&& max_attempts < 1 ==> g.attempts == 1
            &&& g.attempt == 1
            &&& g.is_trying()
            &&& g.last_error is None
            &&& g.newly_marked.len() == 0
            &&& kind == MediaKind::Video ==> g.exclude == skip && g.initial_skipped == skip.len()
            &&& kind == MediaKind::Image ==> g.exclude.len() == 0 && g.initial_skipped == 0
        }),
{
}

/// A video is given up before an attempt exactly where all accounts there are, and there are
/// some, are passed over; an image never is.
pub proof fn giving_up_needs_all_passed_over(g: GenView, valid: int)
    requires
        g.is_trying(),
    ensures
        g.checked(valid).is_trying() <==> !(g.kind == MediaKind::Video && valid > 0 && valid
            <= g.exclude.len()),
        g.checked(valid).is_trying() ==> g.checked(valid) == g,
        !g.checked(valid).is_trying() ==> g.checked(valid).progress is GivenUp && (g.checked(
            valid,
        ).last_error matches Some(e) && occurs(e, "no remaining accounts"@)),
        g.checked(valid).exclude == g.exclude && g.checked(valid).newly_marked == g.newly_marked,
{
    reveal_strlit("no remaining accounts with t2v access to try");
    reveal_strlit("no remaining accounts");
    let e = "no remaining accounts with t2v access to try"@;
    assert(e.subrange(0, 21) =~= "no remaining accounts"@);
    assert(stands_at(e, "no remaining accounts"@, 0));
}

/// An attempt that failed is followed by the next one where one is left; the failure is kept,
/// and nobody is marked for it. No account could mend an account that is not there: then it is
/// given up at once.
pub proof fn failures_lead_to_the_next_attempt(
    g: GenView,
    error: Seq<char>,
    content: Seq<char>,
    email: Option<Seq<char>>,
)
    requires
        g.is_trying(),
    ensures
        ({
            let after = g.judged(Some(error), content, email);
            let hopeless = occurs(error, "no available Qwen accounts"@) || occurs(
                error,
                "no remaining accounts"@,
            );
            &&& after.last_error == Some(error)
            &&& after.exclude == g.exclude && after.newly_marked == g.newly_marked
            &&& after.is_trying() <==> !hopeless && g.attempt < g.attempts
            &&& after.is_trying() ==> after.attempt == g.attempt + 1
            &&& !after.is_trying() ==> after.progress is GivenUp && after.attempt == g.attempt
            &&& after.attempts == g.attempts && after.kind == g.kind
        }),
{
}

/// An answer with links has made it, with just these links. An answer without any marks the
/// account that gave it, where a video was asked for and the account was not passed over
/// already, and leads to the next attempt where one is left.
pub proof fn answers_are_judged_by_their_links(
    g: GenView,
    content: Seq<char>,
    email: Option<Seq<char>>,
    e: Seq<char>,
)
    requires
        g.is_trying(),
    ensures
        ({
            let found = links(content, g.kind);
            let after = g.judged(None, content, email);
            &&& found.len() > 0 ==> {
                &&& after.progress == ProgressView::Found(found)
                &&& after.attempt == g.attempt
                &&& after.exclude == g.exclude && after.newly_marked == g.newly_marked
            }
            &&& found.len() == 0 ==> {
                &&& after.is_trying() <==> g.attempt < g.attempts
                &&& after.is_trying() ==> after.attempt == g.attempt + 1
                &&& !after.is_trying() ==> after.progress is GivenUp
                &&& after.last_error is Some
                &&& after.exclude.contains(e) <==> g.exclude.contains(e) || (g.kind
                    == MediaKind::Video && email == Some(e))
                &&& after.newly_marked.contains(e) <==> g.newly_marked.contains(e) || (g.kind
                    == MediaKind::Video && email == Some(e) && !g.exclude.contains(e))
            }
            &&& after.attempts == g.attempts && after.kind == g.kind
        }),
{
}

/// What came of it: the links that were found, or why none was, which for an image is the last
/// thing that went wrong and for a video ends in it and counts the attempts.
pub proof fn outcomes_tell_what_went_wrong(g: Generation, r: GenOutcome)
    requires
        call_ensures(Generation::outcome, (g,), r),
        g@.wf(),
        !g@.is_trying(),
    ensures
        g@.progress matches ProgressView::Found(urls) ==> texts(r.urls@) == urls && r.error is None
            && r.attempts == g@.attempt,
        g@.progress is GivenUp ==> {
            let last = g@.last_error->0;
            &&& r.urls@.len() == 0
            &&& r.attempts == g@.attempts
            &&& r.error is Some
            &&& ends_in(r.error->0@, last)
            &&& g@.kind == MediaKind::Image ==> r.error->0@ == last
            &&& g@.kind == MediaKind::Video ==> begins_with(
                r.error->0@,
                "video generation failed: no URL after "@ + decimal_digits(g@.attempts)
                    + " attempts (newly skipped "@ + decimal_digits(g@.newly_marked.len() as int),
            )
        },
        r.newly_marked_no_t2v == g@.newly_marked.len(),
{
    if g@.progress is GivenUp {
        let last = g@.last_error->0;
        let m = r.error->0@;
        assert(m.subrange(m.len() - last.len(), m.len() as int) =~= last);
        if g@.kind == MediaKind::Video {
            let head = "video generation failed: no URL after "@ + decimal_digits(g@.attempts)
                + " attempts (newly skipped "@ + decimal_digits(g@.newly_marked.len() as int);
            assert(m.subrange(0, head.len() as int) =~= head);
        }
    }
}

/// The complaint about an answer without a link says of which kind it had to be.
pub proof fn complaints_name_the_kind(kind: MediaKind)
    ensures
        kind == MediaKind::Image ==> occurs(no_url_error(kind), "image"@),
        kind == MediaKind::Video ==> occurs(no_url_error(kind), "video"@),
{
    reveal_strlit("upstream did not return a image URL");
    reveal_strlit("upstream did not return a video URL");
    reveal_strlit("image");
    reveal_strlit("video");
    let i = "upstream did not return a image URL"@;
    let v = "upstream did not return a video URL"@;
    assert(i.subrange(26, 31) =~= "image"@);
    assert(v.subrange(26, 31) =~= "video"@);
    assert(stands_at(i, "image"@, 26));
    assert(stands_at(v, "video"@, 26));
}

/// An attempt asks for what was asked: the prompt, the options and the caller as they came, in
/// the upstream's kind of chat, without thinking, tools or search, past the accounts that are
/// passed over.
pub proof fn attempts_ask_for_what_was_asked(
    prompt: &str,
    kind: MediaKind,
    model: &str,
    options: ImageOptions,
    caller: Option<String>,
    exclude: TextSet,
    r: StandardRequest,
)
    requires
        call_ensures(media_request, (prompt, kind, model, options, caller, exclude), r),
    ensures
        r.prompt@ == prompt@,
        r.resolved_model@ == model@,
        r.image_options == Some(options),
        r.caller == caller,
        r.exclude_accounts == exclude,
        kind == MediaKind::Image ==> r.chat_type@ == "t2i"@ && r.response_model@ == "qwen-image"@
            && r.surface@ == "images"@,
        kind == MediaKind::Video ==> r.chat_type@ == "t2v"@ && r.response_model@ == "qwen-video"@
            && r.surface@ == "videos"@,
        !r.stream && !r.enable_search && !r.force_thinking && r.thinking_enabled == Some(false),
        r.files@.len() == 0 && r.tools@.len() == 0,
        r.bound_account is None,
{
}

// ---------------------------------------------------------------------------
// Tasks
// ---------------------------------------------------------------------------

/// The options are what the parameters say; a ratio may go by either of its two names, and
/// where there is none a video is wide and an image is square.
pub proof fn options_are_what_was_asked(prm: &Json, kind: MediaKind, r: ImageOptions, n: int)
    requires
        call_ensures(params_to_image_options, (prm, kind), r),
        i64::MIN <= n <= i64::MAX,
    ensures
        prm@.get("size"@) matches Some(JsonView::Str(s)) ==> r.size is Some && r.size->0@ == s,
        !(prm@.get("size"@) matches Some(JsonView::Str(_))) ==> r.size is None,
        r.ratio is Some,
        prm@.get("ratio"@) matches Some(JsonView::Str(s)) ==> r.ratio->0@ == s,
        prm@.get("ratio"@) is None && (prm@.get("aspect_ratio"@) matches Some(JsonView::Str(_)))
            ==> prm@.get("aspect_ratio"@) == Some(JsonView::Str(r.ratio->0@)),
        prm@.get("ratio"@) is None && prm@.get("aspect_ratio"@) is None && kind == MediaKind::Video
            ==> r.ratio->0@ == "16:9"@,
        prm@.get("ratio"@) is None && prm@.get("aspect_ratio"@) is None && kind == MediaKind::Image
            ==> r.ratio->0@ == "1:1"@,
        prm@.get("width"@) == Some(JsonView::Int(n)) ==> r.width == Some(n as i64),
        prm@.get("width"@) is None ==> r.width is None,
        prm@.get("height"@) == Some(JsonView::Int(n)) ==> r.height == Some(n as i64),
        prm@.get("height"@) is None ==> r.height is None,
{
}

/// As many images are made as are asked for, but at least one and at most four; a video is
/// made once.
pub proof fn counts_are_what_was_asked(prm: &Json, kind: MediaKind, r: u32, n: int)
    requires
        call_ensures(params_to_count, (prm, kind), r),
    ensures
        kind == MediaKind::Video ==> r == 1,
        1 <= r <= 4,
        kind == MediaKind::Image && prm@.get("n"@) == Some(JsonView::Int(n)) && 1 <= n <= 4 ==> r
            == n,
        kind == MediaKind::Image && prm@.get("n"@) == Some(JsonView::Int(n)) && 4 < n <= u64::MAX
            ==> r == 4,
        kind == MediaKind::Image && prm@.get("n"@) == Some(JsonView::Int(n)) && n < 1 ==> r == 1,
        prm@.get("n"@) is None ==> r == 1,
{
}

/// A task is planned by its kind and by the parameters that its text is in JSON.
pub proof fn plans_follow_the_task(
    task: &MediaTask,
    plan: TaskPlan,
    prm: &Json,
    name: &str,
    kind: MediaKind,
    options: ImageOptions,
    count: u32,
)
    requires
        call_ensures(plan_task, (task,), plan),
        json_parse(encode_utf8(task.params@)) == Ok::<JsonView, Seq<char>>(prm@),
        name@ == task.kind@,
        call_ensures(MediaKind::parse, (name,), kind),
        call_ensures(params_to_image_options, (prm, kind), options),
        call_ensures(params_to_count, (prm, kind), count),
    ensures
        plan.kind == kind,
        plan.count == count,
        plan.options.width == options.width,
        plan.options.height == options.height,
        plan.options.size is Some <==> options.size is Some,
        options.size is Some ==> plan.options.size->0@ == options.size->0@,
        plan.options.ratio is Some && options.ratio is Some && plan.options.ratio->0@
            == options.ratio->0@,
{
}

/// A link is kept with the file that a copy of it was kept in, and with the address of that
/// file, where there is one.
pub proof fn copies_are_kept_with_their_links(url: &str, filename: Option<&str>, r: Json)
    requires
        call_ensures(backup_entry, (url, filename), r),
    ensures
        r@.get("cdn_url"@) == Some(JsonView::Str(url@)),
        filename matches Some(f) ==> r@.get("filename"@) == Some(JsonView::Str(f@)) && r@.get(
            "local_url"@,
        ) == Some(JsonView::Str("/media/"@ + f@)),
        filename is None ==> r@.get("filename"@) == Some(JsonView::Null) && r@.get("local_url"@)
            == Some(JsonView::Null),
{
    reveal_strlit("cdn_url");
    reveal_strlit("filename");
    reveal_strlit("local_url");
    assert("cdn_url"@.len() == 7);
    assert("filename"@.len() == 8);
    assert("local_url"@.len() == 9);
}

/// Every link has its entry, in its place.
pub proof fn every_link_is_kept(
    urls: &Vec<String>,
    filenames: &Vec<Option<String>>,
    r: Json,
    i: int,
)
    requires
        call_ensures(backup_urls, (urls, filenames), r),
        filenames@.len() == urls@.len(),
        0 <= i < urls@.len(),
    ensures
        r@ matches JsonView::Array(entries) && entries.len() == urls@.len() && entries[i].get(
            "cdn_url"@,
        ) == Some(JsonView::Str(urls@[i]@)) && match filenames@[i] {
            Some(f) => entries[i].get("filename"@) == Some(JsonView::Str(f@)),
            None => entries[i].get("filename"@) == Some(JsonView::Null),
        },
{
    reveal_strlit("cdn_url");
    reveal_strlit("filename");
    reveal_strlit("local_url");
    assert("cdn_url"@.len() == 7);
    assert("filename"@.len() == 8);
    assert("local_url"@.len() == 9);
    assert(texts(urls@)[i] == urls@[i]@);
}

/// What a making adds to the results of its task.
pub open spec fn made(run: TaskRun) -> Seq<JsonView> {
    backups(texts(run.outcome.urls@), run.filenames@)
}

/// A task is done where any of its makings made anything, with all that they made, in order; it
/// has failed where none did, with the reason of the last one.
pub proof fn tasks_are_done_where_anything_was_made(runs: &Vec<TaskRun>, r: TaskEnd)
    requires
        call_ensures(settle_task, (runs,), r),
        runs@.len() <= 4,
        forall|i: int| 0 <= i < runs@.len() ==> (#[trigger] runs@[i]).wf(),
    ensures
        r is Done <==> exists|i: int|
            0 <= i < runs@.len() && (#[trigger] runs@[i]).outcome.urls@.len() > 0,
        r matches TaskEnd::Done { results, .. } ==> results@ == JsonView::Array(
            gathered(runs@, |run: TaskRun| made(run)),
        ),
        r is Failed && runs@.len() > 0 && runs@.last().outcome.error is Some ==> r->error@
            == runs@.last().outcome.error->0@,
        r is Failed && runs@.len() == 0 ==> r->error@ == "generation failed"@,
{
    lemma_results(runs@);
    lemma_made(runs@);
    if r is Failed && runs@.len() > 0 {
        assert(runs@.last() == runs@[runs@.len() - 1]);
        assert(runs@.last().outcome.urls@.len() == 0);
    }
}

proof fn lemma_results(runs: Seq<TaskRun>)
    ensures
        task_results(runs) == gathered(runs, |run: TaskRun| made(run)),
    decreases runs.len(),
{
    if runs.len() > 0 {
        lemma_results(runs.drop_last());
    }
}

proof fn lemma_made(runs: Seq<TaskRun>)
    ensures
        task_results(runs).len() > 0 <==> exists|i: int|
            0 <= i < runs.len() && (#[trigger] runs[i]).outcome.urls@.len() > 0,
    decreases runs.len(),
{
    if runs.len() > 0 {
        let rest = runs.drop_last();
        lemma_made(rest);
        assert(runs.last() == runs[runs.len() - 1]);
        if exists|i: int| 0 <= i < runs.len() && (#[trigger] runs[i]).outcome.urls@.len() > 0 {
            let i = choose|i: int|
                0 <= i < runs.len() && (#[trigger] runs[i]).outcome.urls@.len() > 0;
            if i < rest.len() {
                assert(rest[i].outcome.urls@.len() > 0);
            }
        }
        if exists|i: int| 0 <= i < rest.len() && (#[trigger] rest[i]).outcome.urls@.len() > 0 {
            let i = choose|i: int|
                0 <= i < rest.len() && (#[trigger] rest[i]).outcome.urls@.len() > 0;
            assert(runs[i].outcome.urls@.len() > 0);
        }
    }
}

/// A task took as many attempts as its makings took together, however it ended.
pub proof fn attempts_add_up(runs: Seq<TaskRun>, more: TaskRun)
    ensures
        total_attempts(runs.push(more)) == total_attempts(runs) + more.outcome.attempts,
        total_attempts(Seq::empty()) == 0,
{
    assert(runs.push(more).drop_last() =~= runs);
}

/// A task ends with the attempts of all its makings.
pub proof fn ends_count_all_attempts(runs: &Vec<TaskRun>, r: TaskEnd)
    requires
        call_ensures(settle_task, (runs,), r),
    ensures
        r matches TaskEnd::Done { attempts, .. } ==> attempts == total_attempts(runs@),
        r matches TaskEnd::Failed { attempts, .. } ==> attempts == total_attempts(runs@),
{
}

/// A row shows all that is stored of its task, field by field; what is stored as JSON is shown
/// as the value that it is.
pub proof fn rows_show_what_is_stored(row: &TaskRow, r: Json)
    requires
        call_ensures(task_row, (row,), r),
    ensures
        r@.get("id"@) == Some(JsonView::Int(row.id as int)),
        r@.get("ts_created"@) == Some(JsonView::Int(row.ts_created as int)),
        row.ts_done matches Some(t) ==> r@.get("ts_done"@) == Some(JsonView::Int(t as int)),
        row.ts_done is None ==> r@.get("ts_done"@) == Some(JsonView::Null),
        r@.get("kind"@) == Some(JsonView::Str(row.kind@)),
        r@.get("prompt"@) == Some(JsonView::Str(row.prompt@)),
        r@.get("status"@) == Some(JsonView::Str(row.status@)),
        r@.get("attempts"@) == Some(JsonView::Int(row.attempts as int)),
        row.error matches Some(e) ==> r@.get("error"@) == Some(JsonView::Str(e@)),
        row.error is None ==> r@.get("error"@) == Some(JsonView::Null),
        row.caller matches Some(c) ==> r@.get("caller"@) == Some(JsonView::Str(c@)),
        row.caller is None ==> r@.get("caller"@) == Some(JsonView::Null),
        row.params matches Some(p) ==> match json_parse(encode_utf8(p@)) {
            Ok(j) => r@.get("params"@) == Some(j),
            Err(_) => r@.get("params"@) == Some(JsonView::Null),
        },
        row.params is None ==> r@.get("params"@) == Some(JsonView::Null),
        row.results matches Some(p) ==> match json_parse(encode_utf8(p@)) {
            Ok(j) => r@.get("results"@) == Some(j),
            Err(_) => r@.get("results"@) == Some(JsonView::Array(Seq::empty())),
        },
        row.results is None ==> r@.get("results"@) == Some(JsonView::Array(Seq::empty())),
{
    reveal_strlit("id");
    reveal_strlit("ts_created");
    reveal_strlit("ts_done");
    reveal_strlit("kind");
    reveal_strlit("prompt");
    reveal_strlit("params");
    reveal_strlit("status");
    reveal_strlit("attempts");
    reveal_strlit("error");
    reveal_strlit("results");
    reveal_strlit("caller");
    assert("id"@.len() == 2);
    assert("ts_created"@.len() == 10);
    assert("ts_done"@.len() == 7 && "ts_done"@[0] == 't');
    assert("kind"@.len() == 4);
    assert("prompt"@.len() == 6 && "prompt"@[0] == 'p' && "prompt"@[1] == 'r');
    assert("params"@.len() == 6 && "params"@[0] == 'p' && "params"@[1] == 'a');
    assert("status"@.len() == 6 && "status"@[0] == 's');
    assert("attempts"@.len() == 8);
    assert("error"@.len() == 5);
    assert("results"@.len() == 7 && "results"@[0] == 'r');
    assert("caller"@.len() == 6 && "caller"@[0] == 'c');
}

/// The list shows every row, in its place.
pub proof fn lists_show_every_row(rows: &Vec<TaskRow>, r: Json, i: int, row: &TaskRow, shown: Json)
    requires
        call_ensures(task_list, (rows,), r),
        0 <= i < rows@.len(),
        *row == rows@[i],
        call_ensures(task_row, (row,), shown),
    ensures
        r@.get("tasks"@) matches Some(JsonView::Array(tasks)) && tasks.len() == rows@.len()
            && tasks[i] == shown@,
{
}

/// At most five hundred rows are listed and at least one, and as many as are asked for in
/// between.
pub proof fn lists_are_limited(limit: i64, r: i64)
    requires
        call_ensures(list_limit, (limit,), r),
    ensures
        1 <= r <= 500,
        1 <= limit <= 500 ==> r == limit,
        limit < 1 ==> r == 1,
        limit > 500 ==> r == 500,
{
}

/// A dispatcher waits where nobody is free and takes as many tasks as there are free ones
/// otherwise; it works where it has taken any and waits for work where it has not. A queue
/// works on at least one task at a time and tries each at least once.
pub proof fn dispatchers_take_what_they_can(
    n: usize,
    free: Dispatch,
    taken: Dispatch,
    store: MediaStore,
    attempts: u32,
    queue: MediaQueue,
    at_a_time: usize,
    tries: u32,
)
    requires
        call_ensures(dispatch_free, (n,), free),
        call_ensures(dispatch_taken, (n,), taken),
        call_ensures(MediaQueue::new, (store, n, attempts), queue),
        call_ensures(MediaQueue::concurrency, (&queue,), at_a_time),
        call_ensures(MediaQueue::attempts, (&queue,), tries),
    ensures
        n > 0 ==> free == Dispatch::Take(n) && taken == Dispatch::Work && at_a_time == n,
        n == 0 ==> free == Dispatch::WaitForSlot(300) && taken == Dispatch::WaitForWork(3000)
            && at_a_time == 1,
        attempts > 0 ==> tries == attempts,
        attempts == 0 ==> tries == 1,
{
}

/// An attempt that is over: an answer with links ends the making with them; any other answer and
/// any failure leads to the next attempt, where one is left and a failure is one that another
/// account could mend. Whether another attempt is made is what is returned.
pub proof fn attempts_are_judged(
    g: &mut Generation,
    c: &Completion,
    r: bool,
    found: Vec<String>,
    content: &str,
)
    requires
        call_ensures(Generation::after_attempt, (g, c), r),
        old(g)@.is_trying(),
        old(g)@.wf(),
        content@ == c.content@,
        call_ensures(scrape_urls, (content, old(g)@.kind), found),
    ensures
        c.error is None && found@.len() > 0 ==> !r && final(g)@.progress == ProgressView::Found(
            texts(found@),
        ),
        c.error is None && found@.len() == 0 ==> (r <==> old(g)@.attempt < old(g)@.attempts),
        c.error matches Some(e) ==> final(g)@.last_error == Some(e@),
        c.error is Some ==> final(g)@.exclude == old(g)@.exclude,
        c.error is Some ==> (r <==> old(g)@.attempt < old(g)@.attempts && !occurs(
            c.error->0@,
            "no available Qwen accounts"@,
        ) && !occurs(c.error->0@, "no remaining accounts"@)),
        r ==> final(g)@.attempt == old(g)@.attempt + 1 && final(g)@.is_trying(),
        !r ==> !final(g)@.is_trying(),
{
    assert(texts(found@).len() == found@.len());
}

/// Before an attempt: it is made unless a video is asked for and all accounts that could be tried
/// are passed over.
pub proof fn attempts_are_made_while_accounts_are_left(g: &mut Generation, valid: u64, r: bool)
    requires
        call_ensures(Generation::before_attempt, (g, valid), r),
        old(g)@.is_trying(),
    ensures
        r <==> !(old(g)@.kind == MediaKind::Video && valid > 0 && old(g)@.exclude.len() >= valid),
        r ==> final(g)@ == old(g)@,
{
}

/// A link in a text that leads to what is sought is found: from its scheme up to the white space,
/// the quote or the bracket behind it, without the end of the sentence that it stands in.
pub proof fn links_in_a_text_are_found(
    text: &str,
    kind: MediaKind,
    found: Vec<String>,
    pre: Seq<char>,
    safe: bool,
    path: Seq<char>,
    end: Seq<char>,
    post: Seq<char>,
)
    requires
        call_ensures(scrape_urls, (text, kind), found),
        text@ == pre + scheme(safe) + (path + end) + post,
        !occurs(encode_utf8(pre), encode_utf8("http"@)),
        path.len() > 0,
        !is_sentence_end(path.last()),
        forall|k: int| 0 <= k < path.len() ==> !ends_link(#[trigger] path[k]),
        forall|k: int| 0 <= k < end.len() ==> #[trigger] end[k] == '.' || end[k] == ',',
        post.len() > 0 ==> ends_link(post[0]),
        leads_to(lower(scheme(safe) + path), kind),
    ensures
        texts(found@).contains(scheme(safe) + path),
{
    let b = encode_utf8(text@);
    let marks = spans(Marker::Link, b);
    let run = path + end;
    assert forall|k: int| 0 <= k < run.len() implies !ends_link(#[trigger] run[k]) by {
        if k < path.len() {
            assert(run[k] == path[k]);
        } else {
            assert(run[k] == end[k - path.len()]);
        }
    }
    links_run_to_their_end(pre, safe, run, post);
    let url = scheme(safe) + path;
    assert(url.last() == path.last());
    sentences_end_behind_links(url, end);
    assert(scheme(safe) + run =~= url + end);
    assert(bare_link(decode_utf8(b.subrange(marks[0].start, marks[0].end))) == url);
    all_links_are_found(b, marks, kind, url);
}

} // verus!
