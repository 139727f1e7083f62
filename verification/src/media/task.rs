//! Tasks that make images and videos.

use crate::json::{
    array, int_or_null, items_view, lemma_items_push, object, str_or_null, Json, JsonView,
};
use crate::json_text::{is_plain_json, json_parse, json_text, json_to_string, parse_json};
use crate::media::generate::GenOutcome;
use crate::media::kind::{kind_of, MediaKind};
use crate::text::{opt_string, opt_text, texts};
use crate::toolcall::parse::first_of;
use crate::upstream::payload::ImageOptions;
use vstd::prelude::*;
use vstd::utf8::*;

verus! {

/// A task.
#[derive(Debug)]
pub struct MediaTask {
    pub id: i64,
    pub kind: String,
    pub prompt: String,
    pub params: String,
    pub status: String,
    pub caller: Option<String>,
}

/// Where tasks and what they made are kept.
#[derive(Debug)]
pub struct MediaStore {
    pub db_path: String,
    pub media_dir: String,
}

/// How many tasks are worked on at a time, and how often each is tried.
#[derive(Debug)]
pub struct MediaQueue {
    pub store: MediaStore,
    concurrency: usize,
    attempts: u32,
}

impl MediaStore {
    /// A store at the given places.
    pub fn new(db_path: &str, media_dir: &str) -> (r: MediaStore)
        ensures
            r.db_path@ == db_path@,
            r.media_dir@ == media_dir@,
    {
        MediaStore { db_path: db_path.to_string(), media_dir: media_dir.to_string() }
    }
}

/// What a dispatcher does next.
#[derive(Debug, Clone, Copy, PartialEq, Eq, Structural)]
pub enum Dispatch {
    /// Everybody is busy: look again after so many milliseconds.
    WaitForSlot(u64),
    /// Take as many tasks as can be worked on.
    Take(usize),
    /// There is no task: wait for one, at most so many milliseconds.
    WaitForWork(u64),
    /// Work on the tasks.
    Work,
}

impl MediaQueue {
    /// How many tasks are worked on at a time.
    pub closed spec fn spec_concurrency(self) -> int {
        self.concurrency as int
    }

    /// How often each task is tried.
    pub closed spec fn spec_attempts(self) -> int {
        self.attempts as int
    }

    /// A queue. At least one task is worked on at a time, and each is tried at least once.
    pub fn new(store: MediaStore, concurrency: usize, attempts: u32) -> (r: MediaQueue)
        ensures
            r.spec_concurrency() == (if concurrency < 1 {
                1
            } else {
                concurrency as int
            }),
            r.spec_attempts() == (if attempts < 1 {
                1
            } else {
                attempts as int
            }),
            r.spec_store() == store,
    {
        MediaQueue {
            store,
            concurrency: if concurrency < 1 {
                1
            } else {
                concurrency
            },
            attempts: if attempts < 1 {
                1
            } else {
                attempts
            },
        }
    }

    /// The store of the queue.
    pub closed spec fn spec_store(self) -> MediaStore {
        self.store
    }

    /// How many tasks are worked on at a time.
    pub fn concurrency(&self) -> (r: usize)
        ensures
            r == self.spec_concurrency(),
    {
        self.concurrency
    }

    /// How often each task is tried.
    pub fn attempts(&self) -> (r: u32)
        ensures
            r == self.spec_attempts(),
    {
        self.attempts
    }
}

/// What a dispatcher does with so many who are free.
pub fn dispatch_free(free: usize) -> (r: Dispatch)
    ensures
        r == (if free == 0 {
            Dispatch::WaitForSlot(300)
        } else {
            Dispatch::Take(free)
        }),
{
    if free == 0 {
        Dispatch::WaitForSlot(300)
    } else {
        Dispatch::Take(free)
    }
}

/// What a dispatcher does when it has taken so many tasks.
pub fn dispatch_taken(taken: usize) -> (r: Dispatch)
    ensures
        r == (if taken == 0 {
            Dispatch::WaitForWork(3000)
        } else {
            Dispatch::Work
        }),
{
    if taken == 0 {
        Dispatch::WaitForWork(3000)
    } else {
        Dispatch::Work
    }
}

// ---------------------------------------------------------------------------
// What a task asks for
// ---------------------------------------------------------------------------

/// What a task asks for.
#[derive(Debug)]
pub struct TaskPlan {
    pub kind: MediaKind,
    pub options: ImageOptions,
    pub count: u32,
}

/// The parameters in a text, null where it is no JSON.
pub open spec fn read_params(params: Seq<char>) -> JsonView {
    match json_parse(encode_utf8(params)) {
        Ok(j) => j,
        Err(_) => JsonView::Null,
    }
}

/// The text of the first of two fields that is there.
pub open spec fn wished_ratio(prm: JsonView, kind: MediaKind) -> Seq<char> {
    match first_of(prm.get("ratio"@), prm.get("aspect_ratio"@)) {
        Some(JsonView::Str(s)) => s,
        _ => if kind == MediaKind::Video {
            "16:9"@
        } else {
            "1:1"@
        },
    }
}

/// The number in a field.
pub open spec fn number_field(prm: JsonView, key: Seq<char>) -> Option<int> {
    match prm.get(key) {
        Some(v) => v.as_i64(),
        None => None,
    }
}

/// An optional number, as an integer.
pub open spec fn opt_i64(n: Option<i64>) -> Option<int> {
    match n {
        Some(x) => Some(x as int),
        None => None,
    }
}

/// The options say what the parameters ask for.
pub open spec fn options_say(o: ImageOptions, prm: JsonView, kind: MediaKind) -> bool {
    &&& opt_string(o.size) == prm.get_str("size"@)
    &&& opt_string(o.ratio) == Some(wished_ratio(prm, kind))
    &&& opt_i64(o.width) == number_field(prm, "width"@)
    &&& opt_i64(o.height) == number_field(prm, "height"@)
}

/// How many are to be made: one to four images, one video.
pub open spec fn wished_count(prm: JsonView, kind: MediaKind) -> int {
    if kind == MediaKind::Image {
        match prm.get("n"@) {
            Some(v) => match v.as_u64() {
                Some(n) => if n < 1 {
                    1
                } else if n > 4 {
                    4
                } else {
                    n
                },
                None => 1,
            },
            None => 1,
        }
    } else {
        1
    }
}

fn owned(s: Option<&str>) -> (r: Option<String>)
    ensures
        opt_string(r) == opt_text(s),
{
    match s {
        Some(x) => Some(x.to_string()),
        None => None,
    }
}

fn read_number(prm: &Json, key: &str) -> (r: Option<i64>)
    ensures
        opt_i64(r) == number_field(prm@, key@),
{
    match prm.get(key) {
        Some(v) => v.as_i64(),
        None => None,
    }
}

/// The options that parameters ask for. Where no ratio is asked for, a video is wide and an
/// image is square.
pub fn params_to_image_options(prm: &Json, kind: MediaKind) -> (r: ImageOptions)
    ensures
        options_say(r, prm@, kind),
{
    let found = match prm.get("ratio") {
        Some(v) => Some(v),
        None => prm.get("aspect_ratio"),
    };
    let text = match found {
        Some(v) => v.as_str(),
        None => None,
    };
    let ratio = match text {
        Some(s) => s.to_string(),
        None => if kind == MediaKind::Video {
            "16:9".to_string()
        } else {
            "1:1".to_string()
        },
    };
    ImageOptions {
        size: owned(prm.get_str("size")),
        ratio: Some(ratio),
        width: read_number(prm, "width"),
        height: read_number(prm, "height"),
    }
}

/// How many are to be made.
pub fn params_to_count(prm: &Json, kind: MediaKind) -> (r: u32)
    ensures
        r == wished_count(prm@, kind),
        1 <= r <= 4,
{
    if kind == MediaKind::Image {
        match prm.get("n") {
            Some(v) => match v.as_u64() {
                Some(n) => if n < 1 {
                    1
                } else if n > 4 {
                    4
                } else {
                    n as u32
                },
                None => 1,
            },
            None => 1,
        }
    } else {
        1
    }
}

/// The text under which the parameters of a task are kept. A task that is taken up later finds
/// plain ones as they were.
pub fn params_text(params: &Json) -> (r: String)
    ensures
        r@ == json_text(params@),
        is_plain_json(params@, 127) ==> read_params(r@) == params@,
{
    json_to_string(params)
}

/// What a task asks for.
pub fn plan_task(task: &MediaTask) -> (r: TaskPlan)
    ensures
        r.kind == kind_of(task.kind@),
        options_say(r.options, read_params(task.params@), r.kind),
        r.count == wished_count(read_params(task.params@), r.kind),
        1 <= r.count <= 4,
{
    let kind = MediaKind::parse(task.kind.as_str());
    let prm = match parse_json(task.params.as_str()) {
        Some(j) => j,
        None => Json::Null,
    };
    TaskPlan {
        kind,
        options: params_to_image_options(&prm, kind),
        count: params_to_count(&prm, kind),
    }
}

// ---------------------------------------------------------------------------
// What comes of a task
// ---------------------------------------------------------------------------

/// The entry of a link and of the file that a copy of it was kept in.
pub open spec fn backup(url: Seq<char>, filename: Option<Seq<char>>) -> JsonView {
    object().with("cdn_url"@, JsonView::Str(url)).with("filename"@, str_or_null(filename)).with(
        "local_url"@,
        match filename {
            Some(f) => JsonView::Str("/media/"@ + f),
            None => JsonView::Null,
        },
    )
}

/// The entry of a link and of the file that a copy of it was kept in.
pub fn backup_entry(url: &str, filename: Option<&str>) -> (r: Json)
    ensures
        r@ == backup(url@, opt_text(filename)),
{
    let local_url = match filename {
        Some(f) => {
            let mut s = "/media/".to_string();
            s.append(f);
            Json::Str(s)
        },
        None => Json::Null,
    };
    Json::object().with("cdn_url", Json::str(url)).with(
        "filename",
        Json::opt_str(filename),
    ).with("local_url", local_url)
}

/// The entries of links and of their files.
pub open spec fn backups(urls: Seq<Seq<char>>, filenames: Seq<Option<String>>) -> Seq<JsonView> {
    Seq::new(urls.len(), |i: int| backup(urls[i], opt_string(filenames[i])))
}

fn option_ref(s: &Option<String>) -> (r: Option<&str>)
    ensures
        opt_text(r) == opt_string(*s),
{
    match s {
        Some(x) => Some(x.as_str()),
        None => None,
    }
}

/// Adds the entries of links and of their files.
fn add_backups(out: &mut Vec<Json>, urls: &Vec<String>, filenames: &Vec<Option<String>>)
    requires
        filenames@.len() == urls@.len(),
    ensures
        items_view(final(out)@) == items_view(old(out)@) + backups(
            texts(urls@),
            filenames@,
        ),
{
    let n: usize = urls.len();
    let ghost before = items_view(out@);
    let ghost all = backups(texts(urls@), filenames@);
    proof {
        assert(before =~= before + all.take(0));
    }
    let mut i: usize = 0;
    while i < n
        invariant
            n == urls@.len(),
            n == filenames@.len(),
            all == backups(texts(urls@), filenames@),
            i <= n,
            items_view(out@) == before + all.take(i as int),
        decreases n - i,
    {
        let entry = backup_entry(urls[i].as_str(), option_ref(&filenames[i]));
        proof {
            lemma_items_push(out@, entry);
            assert(all[i as int] == entry@);
        }
        out.push(entry);
        proof {
            assert(items_view(out@) =~= before + all.take(i as int + 1));
        }
        i += 1;
    }
    proof {
        assert(all.take(n as int) =~= all);
    }
}

/// The entries of links and of their files.
pub fn backup_urls(urls: &Vec<String>, filenames: &Vec<Option<String>>) -> (r: Json)
    requires
        filenames@.len() == urls@.len(),
    ensures
        r@ == JsonView::Array(backups(texts(urls@), filenames@)),
{
    let mut out: Vec<Json> = Vec::new();
    add_backups(&mut out, urls, filenames);
    proof {
        let all = backups(texts(urls@), filenames@);
        assert(items_view(Seq::<Json>::empty()) + all =~= all);
    }
    Json::Array(out)
}

/// One making, and the files that copies of its links were kept in.
#[derive(Debug)]
pub struct TaskRun {
    pub outcome: GenOutcome,
    pub filenames: Vec<Option<String>>,
}

impl TaskRun {
    /// There is a file, or the lack of one, for each link.
    pub open spec fn wf(self) -> bool {
        self.filenames@.len() == self.outcome.urls@.len()
    }
}

/// How a task ends.
#[derive(Debug)]
pub enum TaskEnd {
    Done { results: Json, attempts: u64 },
    Failed { error: String, attempts: u64 },
}

/// The attempts of all makings.
pub open spec fn total_attempts(runs: Seq<TaskRun>) -> int
    decreases runs.len(),
{
    if runs.len() == 0 {
        0
    } else {
        total_attempts(runs.drop_last()) + runs.last().outcome.attempts
    }
}

/// What all makings made.
pub open spec fn task_results(runs: Seq<TaskRun>) -> Seq<JsonView>
    decreases runs.len(),
{
    if runs.len() == 0 {
        Seq::empty()
    } else {
        let last = runs.last();
        task_results(runs.drop_last()) + backups(
            texts(last.outcome.urls@),
            last.filenames@,
        )
    }
}

/// Why the last making that made nothing did so.
pub open spec fn last_error(runs: Seq<TaskRun>) -> Option<Seq<char>>
    decreases runs.len(),
{
    if runs.len() == 0 {
        None
    } else if runs.last().outcome.urls@.len() == 0 {
        opt_string(runs.last().outcome.error)
    } else {
        last_error(runs.drop_last())
    }
}

proof fn lemma_total_attempts(runs: Seq<TaskRun>)
    ensures
        0 <= total_attempts(runs) <= runs.len() * 0xffff_ffff,
    decreases runs.len(),
{
    if runs.len() > 0 {
        lemma_total_attempts(runs.drop_last());
    }
}

/// How a task ends: with all that was made, where anything was, else with the last reason why
/// nothing was. At most four makings belong to a task.
pub fn settle_task(runs: &Vec<TaskRun>) -> (r: TaskEnd)
    requires
        runs@.len() <= 4,
        forall|i: int| 0 <= i < runs@.len() ==> (#[trigger] runs@[i]).wf(),
    ensures
        if task_results(runs@).len() > 0 {
            r matches TaskEnd::Done { results, attempts } && results@ == JsonView::Array(
                task_results(runs@),
            ) && attempts == total_attempts(runs@)
        } else {
            r matches TaskEnd::Failed { error, attempts } && error@ == (match last_error(runs@) {
                Some(e) => e,
                None => "generation failed"@,
            }) && attempts == total_attempts(runs@)
        },
{
    let n: usize = runs.len();
    let mut results: Vec<Json> = Vec::new();
    let mut attempts: u64 = 0;
    let mut last: Option<&str> = None;
    proof {
        assert(items_view(results@) =~= task_results(runs@.take(0)));
    }
    let mut i: usize = 0;
    while i < n
        invariant
            n == runs@.len(),
            n <= 4,
            i <= n,
            forall|k: int| 0 <= k < runs@.len() ==> (#[trigger] runs@[k]).wf(),
            items_view(results@) == task_results(runs@.take(i as int)),
            attempts == total_attempts(runs@.take(i as int)),
            opt_text(last) == last_error(runs@.take(i as int)),
        decreases n - i,
    {
        proof {
            assert(runs@.take(i as int + 1).drop_last() =~= runs@.take(i as int));
            assert(runs@.take(i as int + 1).last() == runs@[i as int]);
            lemma_total_attempts(runs@.take(i as int));
        }
        let run = &runs[i];
        attempts = attempts + run.outcome.attempts as u64;
        if run.outcome.urls.len() == 0 {
            last = option_ref(&run.outcome.error);
        }
        add_backups(&mut results, &run.outcome.urls, &run.filenames);
        i += 1;
    }
    proof {
        assert(runs@.take(n as int) =~= runs@);
        crate::json::lemma_items_view(results@);
    }
    if results.len() == 0 {
        let error = match last {
            Some(e) => e.to_string(),
            None => "generation failed".to_string(),
        };
        TaskEnd::Failed { error, attempts }
    } else {
        TaskEnd::Done { results: Json::Array(results), attempts }
    }
}

// ---------------------------------------------------------------------------
// Listing tasks
// ---------------------------------------------------------------------------

/// A row of the list of tasks.
#[derive(Debug)]
pub struct TaskRow {
    pub id: i64,
    pub ts_created: i64,
    pub ts_done: Option<i64>,
    pub kind: String,
    pub prompt: String,
    pub params: Option<String>,
    pub status: String,
    pub attempts: i64,
    pub error: Option<String>,
    pub results: Option<String>,
    pub caller: Option<String>,
}

/// The value in an optional text, or another where there is none.
pub open spec fn stored_value(s: Option<Seq<char>>, other: JsonView) -> JsonView {
    match s {
        Some(t) => match json_parse(encode_utf8(t)) {
            Ok(j) => j,
            Err(_) => other,
        },
        None => other,
    }
}

/// A row of the list, as a value.
pub open spec fn row_value(row: TaskRow) -> JsonView {
    object().with("id"@, JsonView::Int(row.id as int)).with(
        "ts_created"@,
        JsonView::Int(row.ts_created as int),
    ).with("ts_done"@, int_or_null(row.ts_done)).with("kind"@, JsonView::Str(row.kind@)).with(
        "prompt"@,
        JsonView::Str(row.prompt@),
    ).with("params"@, stored_value(opt_string(row.params), JsonView::Null)).with(
        "status"@,
        JsonView::Str(row.status@),
    ).with("attempts"@, JsonView::Int(row.attempts as int)).with(
        "error"@,
        str_or_null(opt_string(row.error)),
    ).with("results"@, stored_value(opt_string(row.results), array())).with(
        "caller"@,
        str_or_null(opt_string(row.caller)),
    )
}

fn read_stored(s: &Option<String>, other: Json) -> (r: Json)
    ensures
        r@ == stored_value(opt_string(*s), other@),
{
    match s {
        Some(t) => match parse_json(t.as_str()) {
            Some(j) => j,
            None => other,
        },
        None => other,
    }
}

/// A row of the list, as a value.
pub fn task_row(row: &TaskRow) -> (r: Json)
    ensures
        r@ == row_value(*row),
{
    Json::object().with("id", Json::integer(row.id)).with(
        "ts_created",
        Json::integer(row.ts_created),
    ).with("ts_done", Json::opt_int(row.ts_done)).with(
        "kind",
        Json::str(row.kind.as_str()),
    ).with("prompt", Json::str(row.prompt.as_str())).with(
        "params",
        read_stored(&row.params, Json::Null),
    ).with("status", Json::str(row.status.as_str())).with(
        "attempts",
        Json::integer(row.attempts),
    ).with("error", Json::opt_str(option_ref(&row.error))).with(
        "results",
        read_stored(&row.results, Json::array()),
    ).with("caller", Json::opt_str(option_ref(&row.caller)))
}

/// The list of tasks.
pub fn task_list(rows: &Vec<TaskRow>) -> (r: Json)
    ensures
        r@ == object().with(
            "tasks"@,
            JsonView::Array(rows@.map_values(|row: TaskRow| row_value(row))),
        ),
{
    let n: usize = rows.len();
    let ghost all = rows@.map_values(|row: TaskRow| row_value(row));
    let mut out: Vec<Json> = Vec::new();
    let mut i: usize = 0;
    while i < n
        invariant
            n == rows@.len(),
            all == rows@.map_values(|row: TaskRow| row_value(row)),
            i <= n,
            items_view(out@) == all.take(i as int),
        decreases n - i,
    {
        let row = task_row(&rows[i]);
        proof {
            lemma_items_push(out@, row);
        }
        out.push(row);
        proof {
            assert(items_view(out@) =~= all.take(i as int + 1));
        }
        i += 1;
    }
    proof {
        assert(all.take(n as int) =~= all);
    }
    Json::object().with("tasks", Json::Array(out))
}

/// How many tasks are listed: what is asked for, but one at least and five hundred at most.
pub fn list_limit(limit: i64) -> (r: i64)
    ensures
        r == (if limit < 1 {
            1
        } else if limit > 500 {
            500
        } else {
            limit as int
        }),
{
    if limit < 1 {
        1
    } else if limit > 500 {
        500
    } else {
        limit
    }
}

} // verus!
