//! The operations the presentation layer invokes, over the shared state.
//! Locking is the caller's: each operation here runs under one exclusive
//! borrow of the state, which is what makes claiming a job exclusive.
use vstd::prelude::*;
use crate::paths::{extension, path_extension};
use crate::text::{lower_ascii, same_text, to_ascii_lower};
use crate::audio::{AudioFormat, generate_output_path, output_path_spec};
use crate::piper::{PiperConfig, PiperEngine, SynthesisRequest, VoiceInfo, catalog_of, lists_catalog, strings_view, copy_opt};
use crate::queue::{JobQueue, NewQueueItem, QueueError, QueueItem, QueueStatus, created_from, claimed, follows_life_cycle, is_first_pending, has_pending, has_id};

verus! {

/// The application's settings: the engine's configuration and where
/// exports go.
pub struct AppConfig {
    pub piper: PiperConfig,
    pub export_dir: String,
}

/// Everything the operations share: the queue, the settings and the engine.
pub struct SharedState {
    pub queue: JobQueue,
    pub config: AppConfig,
    pub piper: PiperEngine,
}

/// What an export asks for. `speed` is in thousandths.
pub struct ExportOptions {
    pub item_id: u128,
    pub format: AudioFormat,
    pub speed: Option<u32>,
    pub voice: Option<String>,
    pub directory: Option<String>,
}

impl AppConfig {
    pub fn duplicate(&self) -> (r: AppConfig)
        ensures
            r == *self,
    {
        AppConfig { piper: self.piper.duplicate(), export_dir: self.export_dir.clone() }
    }
}

impl SharedState {
    pub open spec fn wf(&self) -> bool {
        self.queue.wf() && self.piper.wf()
    }

    /// Builds the state with an empty queue and an engine over the model
    /// files found under the configured voice directory.
    pub fn new(config: AppConfig, model_files: Vec<String>) -> (r: SharedState)
        ensures
            r.wf(),
            r.queue.view().len() == 0,
            r.config == config,
            r.piper.config_view() == config.piper,
            r.piper.catalog() == catalog_of(strings_view(model_files@)),
    {
        let engine = PiperEngine::new(config.piper.duplicate(), model_files);
        SharedState { queue: JobQueue::new(), config, piper: engine }
    }
}

/// Adds jobs to the end of the queue, a job without a voice taking the
/// engine's default voice. Never fails.
pub fn enqueue_text_impl(state: &mut SharedState, items: Vec<NewQueueItem>) -> (r: Result<Vec<QueueItem>, String>)
    requires
        old(state).wf(),
    ensures
        final(state).wf(),
        follows_life_cycle(old(state).queue.view(), final(state).queue.view()),
        final(state).config == old(state).config,
        final(state).piper == old(state).piper,
        match r {
            Ok(created) => {
                &&& final(state).queue.view() == old(state).queue.view() + created@
                &&& created@.len() == items@.len()
                &&& forall|k: int| 0 <= k < created@.len() ==> created_from(
                    items@[k],
                    created@[k].id,
                    old(state).piper.config_view().default_voice@,
                    #[trigger] created@[k],
                )
                &&& forall|k: int| 0 <= k < created@.len() ==> !has_id(old(state).queue.view(), (#[trigger] created@[k]).id)
                &&& forall|k: int| 0 <= k < created@.len() ==> !old(state).queue.issued().contains((#[trigger] created@[k]).id)
                &&& final(state).queue.issued() == old(state).queue.issued() + created@.map_values(|x: QueueItem| x.id)
            },
            Err(_) => false,
        },
{
    let default_voice = state.piper.config().default_voice.clone();
    let created = state.queue.submit(items, default_voice.as_str());
    Ok(created)
}

/// Removes the job with this id, if there is one.
pub fn remove_from_queue_impl(state: &mut SharedState, id: u128)
    requires
        old(state).wf(),
    ensures
        final(state).wf(),
        follows_life_cycle(old(state).queue.view(), final(state).queue.view()),
        final(state).config == old(state).config,
        final(state).piper == old(state).piper,
        !has_id(final(state).queue.view(), id),
        has_id(old(state).queue.view(), id) ==> exists|i: int|
            0 <= i < old(state).queue.view().len() && old(state).queue.view()[i].id == id
                && final(state).queue.view() == old(state).queue.view().remove(i),
        !has_id(old(state).queue.view(), id) ==> final(state).queue.view() == old(state).queue.view(),
{
    state.queue.remove(id);
}

/// Empties the queue.
pub fn clear_queue_impl(state: &mut SharedState)
    requires
        old(state).wf(),
    ensures
        final(state).wf(),
        follows_life_cycle(old(state).queue.view(), final(state).queue.view()),
        final(state).config == old(state).config,
        final(state).piper == old(state).piper,
        final(state).queue.view().len() == 0,
{
    state.queue.clear();
}

/// A snapshot of the queue.
pub fn get_queue(state: &SharedState) -> (r: Vec<QueueItem>)
    ensures
        r@ == state.queue.view(),
{
    state.queue.list_all()
}

/// The voices of the catalog.
pub fn list_voices(state: &SharedState) -> (r: Vec<VoiceInfo>)
    requires
        state.wf(),
    ensures
        lists_catalog(r@, state.piper.catalog()),
{
    state.piper.voices()
}

/// A copy of the settings.
pub fn get_config(state: &SharedState) -> (r: AppConfig)
    ensures
        r == state.config,
{
    state.config.duplicate()
}

/// Changes where exports go.
pub fn update_export_dir(state: &mut SharedState, path: String)
    requires
        old(state).wf(),
    ensures
        final(state).wf(),
        final(state).config.export_dir == path,
        final(state).config.piper == old(state).config.piper,
        final(state).queue == old(state).queue,
        final(state).piper == old(state).piper,
{
    state.config.export_dir = path;
}

/// The request that synthesizes a job into `dir`.
pub open spec fn job_request(x: QueueItem, dir: Seq<char>, r: SynthesisRequest) -> bool {
    &&& r.text@ == x.text@
    &&& r.voice is Some && r.voice->0@ == x.voice@
    &&& r.output@ == output_path_spec(dir, x.title@, x.format)
    &&& r.speed == Some(x.rate)
    &&& r.format == x.format
}

/// First half of processing the next job: claims the earliest pending job
/// and builds its synthesis request, written into the export directory.
pub fn begin_next(state: &mut SharedState) -> (r: Result<(QueueItem, SynthesisRequest), String>)
    requires
        old(state).wf(),
    ensures
        final(state).wf(),
        follows_life_cycle(old(state).queue.view(), final(state).queue.view()),
        final(state).config == old(state).config,
        final(state).piper == old(state).piper,
        match r {
            Ok((x, req)) => {
                &&& exists|i: int|
                    is_first_pending(old(state).queue.view(), i) && final(state).queue.view()
                        == claimed(old(state).queue.view(), i) && x == final(state).queue.view()[i]
                &&& job_request(x, old(state).config.export_dir@, req)
            },
            Err(e) => e@ == "No pending items"@ && !has_pending(old(state).queue.view())
                && final(state).queue.view() == old(state).queue.view(),
        },
{
    let item = match state.queue.advance_next() {
        Ok(x) => x,
        Err(_) => {
            return Err(String::from_str("No pending items"));
        },
    };
    let output = generate_output_path(state.config.export_dir.as_str(), item.title.as_str(), item.format);
    let request = SynthesisRequest {
        text: item.text.clone(),
        voice: Some(item.voice.clone()),
        output,
        speed: Some(item.rate),
        format: item.format,
    };
    Ok((item, request))
}

/// Second half: records the synthesis outcome on the job, looked up again
/// by id. On success the job, completed with its output path, is returned;
/// on failure the job is left `Failed` with no output and the message is
/// handed back to the caller.
pub fn complete_next(state: &mut SharedState, item: QueueItem, result: Result<String, String>) -> (r: Result<QueueItem, String>)
    requires
        old(state).wf(),
    ensures
        final(state).wf(),
        follows_life_cycle(old(state).queue.view(), final(state).queue.view()),
        final(state).config == old(state).config,
        final(state).piper == old(state).piper,
        final(state).queue.view().len() == old(state).queue.view().len(),
        forall|i: int|
            0 <= i < old(state).queue.view().len() ==> {
                let x = #[trigger] old(state).queue.view()[i];
                final(state).queue.view()[i] == if x.id == item.id && x.status == QueueStatus::Processing {
                    match result {
                        Ok(p) => QueueItem { status: QueueStatus::Completed, output: Some(p), ..x },
                        Err(_) => QueueItem { status: QueueStatus::Failed, output: None, ..x },
                    }
                } else {
                    x
                }
            },
        match result {
            Ok(p) => r == Ok::<QueueItem, String>(QueueItem { status: QueueStatus::Completed, output: Some(p), ..item }),
            Err(e) => r == Err::<QueueItem, String>(e),
        },
{
    match result {
        Ok(path) => {
            state.queue.finish(item.id, Some(path.clone()));
            let mut done = item;
            done.status = QueueStatus::Completed;
            done.output = Some(path);
            Ok(done)
        },
        Err(e) => {
            state.queue.finish(item.id, None);
            Err(e)
        },
    }
}

/// The request that exports a job: the options' voice and speed when given,
/// else the job's; the options' directory when given, else the export
/// directory.
pub open spec fn export_request(x: QueueItem, o: ExportOptions, export_dir: Seq<char>, r: SynthesisRequest) -> bool {
    let dir = match o.directory {
        Some(d) => d@,
        None => export_dir,
    };
    &&& r.text@ == x.text@
    &&& r.voice is Some && r.voice->0@ == (match o.voice {
        Some(v) => v@,
        None => x.voice@,
    })
    &&& r.output@ == output_path_spec(dir, x.title@, o.format)
    &&& r.speed == Some(match o.speed {
        Some(s) => s,
        None => x.rate,
    })
    &&& r.format == o.format
}

/// First half of an export: the request for the job named by the options.
/// The queue is not touched.
pub fn begin_export(state: &SharedState, options: &ExportOptions) -> (r: Result<SynthesisRequest, String>)
    ensures
        match r {
            Ok(req) => exists|i: int|
                0 <= i < state.queue.view().len() && state.queue.view()[i].id == options.item_id
                    && export_request(state.queue.view()[i], *options, state.config.export_dir@, req),
            Err(e) => e@ == "Item not found"@ && !has_id(state.queue.view(), options.item_id),
        },
{
    let item = match state.queue.find(options.item_id) {
        Some(x) => x,
        None => {
            return Err(String::from_str("Item not found"));
        },
    };
    let dir = match &options.directory {
        Some(d) => d.clone(),
        None => state.config.export_dir.clone(),
    };
    let output = generate_output_path(dir.as_str(), item.title.as_str(), options.format);
    let voice = match &options.voice {
        Some(v) => v.clone(),
        None => item.voice.clone(),
    };
    let speed = match options.speed {
        Some(s) => s,
        None => item.rate,
    };
    Ok(SynthesisRequest { text: item.text.clone(), voice: Some(voice), output, speed: Some(speed), format: options.format })
}

/// Second half of a successful export: the job, if still queued, records
/// the new output path and format; its status stays as it was.
pub fn finish_export(state: &mut SharedState, item_id: u128, output: String, format: AudioFormat) -> (r: String)
    requires
        old(state).wf(),
    ensures
        r == output,
        final(state).wf(),
        follows_life_cycle(old(state).queue.view(), final(state).queue.view()),
        final(state).config == old(state).config,
        final(state).piper == old(state).piper,
        final(state).queue.view().len() == old(state).queue.view().len(),
        forall|i: int|
            0 <= i < old(state).queue.view().len() ==> {
                let x = #[trigger] old(state).queue.view()[i];
                final(state).queue.view()[i] == if x.id == item_id {
                    QueueItem { output: Some(output), format, ..x }
                } else {
                    x
                }
            },
{
    state.queue.record_export(item_id, output.clone(), format);
    output
}

/// How a document becomes plain text.
pub enum ImportSource {
    /// Plain text: the file is read as it is.
    ReadText,
    /// The helper script at this path converts the file.
    Script(String),
}

/// The lower-cased extension of a path, empty when it has none.
pub open spec fn import_extension(path: Seq<char>) -> Seq<char> {
    match path_extension(path) {
        Some(e) => lower_ascii(e),
        None => Seq::empty(),
    }
}

/// Decides how a document is imported from its extension, in any case:
/// `txt` is read directly, `epub` and `pdf` go through their helper
/// scripts, and anything else is refused before any work is done.
pub fn import_source(path: &str) -> (r: Result<ImportSource, String>)
    ensures
        ({
            let e = import_extension(path@);
            if e == "txt"@ {
                r is Ok && r->Ok_0 is ReadText
            } else if e == "epub"@ {
                r is Ok && r->Ok_0 is Script && r->Ok_0->Script_0@ == "scripts/import_epub.py"@
            } else if e == "pdf"@ {
                r is Ok && r->Ok_0 is Script && r->Ok_0->Script_0@ == "scripts/import_pdf.py"@
            } else {
                r is Err && r->Err_0@ == "Unsupported extension: "@ + e
            }
        }),
{
    proof {
        reveal_strlit("txt");
        reveal_strlit("epub");
        reveal_strlit("pdf");
        assert("txt"@.len() == 3 && "pdf"@.len() == 3 && "epub"@.len() == 4);
        assert("txt"@[0] != "pdf"@[0]);
    }
    let ext = match extension(path) {
        Some(e) => to_ascii_lower(e.as_str()),
        None => String::new(),
    };
    assert(ext@ == import_extension(path@)) by {
        if path_extension(path@) is None {
            assert(lower_ascii(Seq::<char>::empty()) =~= Seq::<char>::empty());
        }
    }
    if same_text(ext.as_str(), "epub") {
        Ok(ImportSource::Script(String::from_str("scripts/import_epub.py")))
    } else if same_text(ext.as_str(), "pdf") {
        Ok(ImportSource::Script(String::from_str("scripts/import_pdf.py")))
    } else if same_text(ext.as_str(), "txt") {
        Ok(ImportSource::ReadText)
    } else {
        let mut m = String::from_str("Unsupported extension: ");
        m.append(ext.as_str());
        Err(m)
    }
}

} // verus!
