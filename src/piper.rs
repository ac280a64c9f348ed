//! The voice catalog and the decisions around one run of the synthesis
//! executable: which voice, which files, which arguments, what comes next.
use vstd::prelude::*;
use crate::audio::{AudioFormat, is_native};
use crate::text::same_text;
use crate::paths::{path_extension, path_stem, path_with_extension, extension, file_stem, with_extension};

verus! {

/// Where the synthesis executable is and which voices it may use.
pub struct PiperConfig {
    pub binary_path: String,
    pub voices_dir: String,
    pub default_voice: String,
    pub models_manifest: Option<String>,
}

/// Failures of the synthesis engine.
pub enum PiperError {
    VoiceNotFound(String),
    InvalidBinary(String),
    CommandFailed(String),
}

/// One voice model found on disk.
pub struct VoiceInfo {
    pub name: String,
    pub description: Option<String>,
    pub language: Option<String>,
    pub quality: Option<String>,
    pub model_path: String,
}

/// The engine: its configuration and the catalog of voices, fixed once built.
pub struct PiperEngine {
    config: PiperConfig,
    voices: Vec<VoiceInfo>,
}

/// What a caller asks to have spoken. `speed` is in thousandths (1000 is
/// normal speed).
pub struct SynthesisRequest {
    pub text: String,
    pub voice: Option<String>,
    pub output: String,
    pub speed: Option<u32>,
    pub format: AudioFormat,
}

/// One run of the synthesis executable, ready to launch: the program, its
/// arguments, the text for its standard input, and where its file lands.
pub struct SynthesisPlan {
    pub program: String,
    pub args: Vec<String>,
    pub text: String,
    pub intermediate: String,
    pub output: String,
    pub transcode: bool,
}

/// What follows a finished run of the synthesis executable.
pub enum SynthesisStep {
    /// The file at this path is the result.
    Done(String),
    /// The file at this path must be transcoded to the requested format.
    Transcode(String),
}

pub open spec fn opt_view(o: Option<String>) -> Option<Seq<char>> {
    match o {
        Some(s) => Some(s@),
        None => None,
    }
}

pub open spec fn onnx() -> Seq<char> {
    seq!['o', 'n', 'n', 'x']
}

/// Whether a file path is a voice model.
pub open spec fn is_model_file(path: Seq<char>) -> bool {
    path_extension(path) == Some(onnx())
}

/// The voice name a model file is registered under: its stem, or the whole
/// path when it has none.
pub open spec fn voice_name_of(path: Seq<char>) -> Seq<char> {
    match path_stem(path) {
        Some(s) => s,
        None => path,
    }
}

/// The catalog scanning `files` in order builds: voice name to model path,
/// a later file replacing an earlier one of the same name.
pub open spec fn catalog_of(files: Seq<Seq<char>>) -> Map<Seq<char>, Seq<char>>
    decreases files.len(),
{
    if files.len() == 0 {
        Map::empty()
    } else if is_model_file(files.last()) {
        catalog_of(files.drop_last()).insert(voice_name_of(files.last()), files.last())
    } else {
        catalog_of(files.drop_last())
    }
}

pub open spec fn strings_view(v: Seq<String>) -> Seq<Seq<char>> {
    v.map_values(|s: String| s@)
}

/// A list of voices that holds each name once and maps names to models as `m` does.
pub open spec fn lists_catalog(v: Seq<VoiceInfo>, m: Map<Seq<char>, Seq<char>>) -> bool {
    &&& forall|i: int, j: int|
        0 <= i < v.len() && 0 <= j < v.len() && i != j ==> (#[trigger] v[i]).name@ != (#[trigger] v[j]).name@
    &&& forall|i: int|
        0 <= i < v.len() ==> m.contains_key((#[trigger] v[i]).name@) && m[v[i].name@]
            == v[i].model_path@ && v[i].description is None && v[i].language is None
            && v[i].quality is None
    &&& forall|k: Seq<char>| #[trigger] m.contains_key(k) ==> exists|i: int| 0 <= i < v.len() && (#[trigger] v[i]).name@ == k
}

/// The arguments of the synthesis executable for a model, an output file and a speed.
pub open spec fn piper_args(model: Seq<char>, output: Seq<char>, speed: Option<u32>) -> Seq<Seq<char>> {
    let base = seq![
        seq!['-', '-', 'm', 'o', 'd', 'e', 'l'],
        model,
        seq!['-', '-', 'o', 'u', 't', 'p', 'u', 't', '_', 'f', 'i', 'l', 'e'],
        output,
        seq!['-', '-', 's', 'e', 'n', 't', 'e', 'n', 'c', 'e', '_', 's', 'i', 'l', 'e', 'n', 'c', 'e'],
        seq!['0', '.', '2'],
    ];
    match speed {
        Some(s) => base + seq![
            seq!['-', '-', 'l', 'e', 'n', 'g', 't', 'h', '_', 's', 'c', 'a', 'l', 'e'],
            crate::text::rate_text_spec(s),
        ],
        None => base,
    }
}

/// The file the synthesis executable writes for a requested output and format.
pub open spec fn intermediate_of(output: Seq<char>, format: AudioFormat) -> Seq<char> {
    if is_native(format) {
        output
    } else {
        path_with_extension(output, seq!['w', 'a', 'v'])
    }
}

pub fn copy_opt(o: &Option<String>) -> (r: Option<String>)
    ensures
        r == *o,
{
    match o {
        Some(s) => Some(s.clone()),
        None => None,
    }
}

impl VoiceInfo {
    /// A field-by-field copy.
    pub fn duplicate(&self) -> (r: VoiceInfo)
        ensures
            r == *self,
    {
        VoiceInfo {
            name: self.name.clone(),
            description: copy_opt(&self.description),
            language: copy_opt(&self.language),
            quality: copy_opt(&self.quality),
            model_path: self.model_path.clone(),
        }
    }
}

impl PiperConfig {
    /// Resolves the configuration from optional settings: the executable
    /// defaults to `piper` on the search path, the voice directory to
    /// `fallback_voices_dir`, the default voice to `en_US-amy-medium`.
    pub fn from_settings(
        binary_path: Option<String>,
        voices_dir: Option<String>,
        fallback_voices_dir: String,
        default_voice: Option<String>,
        models_manifest: Option<String>,
    ) -> (r: PiperConfig)
        ensures
            r.binary_path@ == (match binary_path {
                Some(b) => b@,
                None => seq!['p', 'i', 'p', 'e', 'r'],
            }),
            r.voices_dir@ == (match voices_dir {
                Some(d) => d@,
                None => fallback_voices_dir@,
            }),
            r.default_voice@ == (match default_voice {
                Some(v) => v@,
                None => "en_US-amy-medium"@,
            }),
            r.models_manifest == models_manifest,
    {
        proof {
            reveal_strlit("piper");
        }
        PiperConfig {
            binary_path: match binary_path {
                Some(b) => b,
                None => String::from_str("piper"),
            },
            voices_dir: match voices_dir {
                Some(d) => d,
                None => fallback_voices_dir,
            },
            default_voice: match default_voice {
                Some(v) => v,
                None => String::from_str("en_US-amy-medium"),
            },
            models_manifest,
        }
    }

    pub fn duplicate(&self) -> (r: PiperConfig)
        ensures
            r == *self,
    {
        PiperConfig {
            binary_path: self.binary_path.clone(),
            voices_dir: self.voices_dir.clone(),
            default_voice: self.default_voice.clone(),
            models_manifest: copy_opt(&self.models_manifest),
        }
    }
}

/// Builds the catalog from the files found under the voice directory, in
/// the order they were found. No files (a missing directory) give an empty
/// catalog.
pub fn discover_voices(files: &Vec<String>) -> (r: Vec<VoiceInfo>)
    ensures
        lists_catalog(r@, catalog_of(strings_view(files@))),
        files@.len() == 0 ==> r@.len() == 0,
{
    let mut voices: Vec<VoiceInfo> = Vec::new();
    let mut i: usize = 0;
    proof {
        reveal_strlit("onnx");
        assert(strings_view(files@).subrange(0, 0) =~= Seq::<Seq<char>>::empty());
    }
    while i < files.len()
        invariant
            i <= files@.len(),
            lists_catalog(voices@, catalog_of(strings_view(files@).subrange(0, i as int))),
            i == 0 ==> voices@.len() == 0,
        decreases files@.len() - i,
    {
        let path = &files[i];
        proof {
            reveal_strlit("onnx");
        }
        let ghost before = catalog_of(strings_view(files@).subrange(0, i as int));
        let ghost sub = strings_view(files@).subrange(0, i + 1);
        assert(sub.drop_last() =~= strings_view(files@).subrange(0, i as int));
        assert(sub.last() == path@);
        let ext = extension(path.as_str());
        let is_model = match &ext {
            Some(e) => same_text(e.as_str(), "onnx"),
            None => false,
        };
        assert("onnx"@ =~= onnx());
        assert(is_model == is_model_file(path@));
        if is_model {
            let name = match file_stem(path.as_str()) {
                Some(s) => s,
                None => path.clone(),
            };
            let info = VoiceInfo {
                name: name.clone(),
                description: None,
                language: None,
                quality: None,
                model_path: path.clone(),
            };
            let mut j: usize = 0;
            while j < voices.len() && !same_text(voices[j].name.as_str(), name.as_str())
                invariant
                    j <= voices@.len(),
                    forall|k: int| 0 <= k < j ==> (#[trigger] voices@[k]).name@ != name@,
                decreases voices@.len() - j,
            {
                j = j + 1;
            }
            let found = j < voices.len();
            let ghost old_voices = voices@;
            proof {
                assert(is_model_file(path@));
                assert(voice_name_of(path@) == name@);
            }
            if found {
                voices.set(j, info);
            } else {
                voices.push(info);
            }
            proof {
                let m = catalog_of(sub);
                assert(m == before.insert(name@, path@));
                assert forall|k: Seq<char>| #[trigger] m.contains_key(k) implies exists|t: int|
                    0 <= t < voices@.len() && (#[trigger] voices@[t]).name@ == k by {
                    if k == name@ {
                        if found {
                            assert(voices@[j as int].name@ == k);
                        } else {
                            assert(voices@[old_voices.len() as int].name@ == k);
                        }
                    } else {
                        let t = choose|t: int| 0 <= t < old_voices.len() && (#[trigger] old_voices[t]).name@ == k;
                        assert(voices@[t].name@ == k);
                    }
                }
            }
        } else {
            assert(catalog_of(sub) == before);
        }
        i = i + 1;
    }
    assert(strings_view(files@).subrange(0, files@.len() as int) =~= strings_view(files@));
    voices
}

impl PiperEngine {
    /// The catalog as a map from voice name to model path.
    pub closed spec fn catalog(&self) -> Map<Seq<char>, Seq<char>> {
        Map::new(
            |k: Seq<char>| exists|i: int| 0 <= i < self.voices@.len() && self.voices@[i].name@ == k,
            |k: Seq<char>|
                self.voices@[choose|i: int| 0 <= i < self.voices@.len() && self.voices@[i].name@ == k].model_path@,
        )
    }

    pub closed spec fn config_view(&self) -> PiperConfig {
        self.config
    }

    /// The engine's invariant: the voice list holds each name once.
    pub closed spec fn wf(&self) -> bool {
        lists_catalog(self.voices@, self.catalog())
    }

    /// Builds the engine over the model files found under the voice directory.
    pub fn new(config: PiperConfig, model_files: Vec<String>) -> (r: PiperEngine)
        ensures
            r.wf(),
            r.catalog() == catalog_of(strings_view(model_files@)),
            model_files@.len() == 0 ==> r.catalog() == Map::<Seq<char>, Seq<char>>::empty(),
            r.config_view() == config,
    {
        let voices = discover_voices(&model_files);
        let r = PiperEngine { config, voices };
        let ghost m = catalog_of(strings_view(model_files@));
        assert(r.catalog() =~= m);
        if model_files.len() == 0 {
            assert(strings_view(model_files@) =~= Seq::<Seq<char>>::empty());
        }
        r
    }

    pub fn config(&self) -> (r: &PiperConfig)
        ensures
            *r == self.config_view(),
    {
        &self.config
    }

    /// Every voice of the catalog, each once.
    pub fn voices(&self) -> (r: Vec<VoiceInfo>)
        requires
            self.wf(),
        ensures
            lists_catalog(r@, self.catalog()),
    {
        let mut r: Vec<VoiceInfo> = Vec::new();
        let mut i: usize = 0;
        while i < self.voices.len()
            invariant
                i <= self.voices@.len(),
                r@ == self.voices@.subrange(0, i as int),
            decreases self.voices@.len() - i,
        {
            r.push(self.voices[i].duplicate());
            i = i + 1;
        }
        assert(r@ =~= self.voices@);
        r
    }

    /// Looks a voice up by name, the configured default when none is asked
    /// for. There is no normalisation: the name must match exactly.
    pub fn resolve_voice(&self, requested: Option<&str>) -> (r: Result<VoiceInfo, PiperError>)
        requires
            self.wf(),
        ensures
            ({
                let name = match requested {
                    Some(n) => n@,
                    None => self.config_view().default_voice@,
                };
                match r {
                    Ok(v) => self.catalog().contains_key(name) && v.name@ == name
                        && v.model_path@ == self.catalog()[name],
                    Err(PiperError::VoiceNotFound(n)) => !self.catalog().contains_key(name) && n@ == name,
                    Err(_) => false,
                }
            }),
    {
        let name: &str = match requested {
            Some(n) => n,
            None => self.config.default_voice.as_str(),
        };
        let mut i: usize = 0;
        while i < self.voices.len()
            invariant
                self.wf(),
                i <= self.voices@.len(),
                forall|k: int| 0 <= k < i ==> (#[trigger] self.voices@[k]).name@ != name@,
                name@ == match requested {
                    Some(n) => n@,
                    None => self.config_view().default_voice@,
                },
            decreases self.voices@.len() - i,
        {
            if same_text(self.voices[i].name.as_str(), name) {
                proof {
                    assert(lists_catalog(self.voices@, self.catalog()));
                    assert(self.voices@[i as int].name@ == name@);
                    assert(self.catalog().contains_key(name@));
                    assert(self.catalog()[name@] == self.voices@[i as int].model_path@);
                }
                return Ok(self.voices[i].duplicate());
            }
            i = i + 1;
        }
        proof {
            assert(lists_catalog(self.voices@, self.catalog()));
            if self.catalog().contains_key(name@) {
                let t = choose|t: int| 0 <= t < self.voices@.len() && (#[trigger] self.voices@[t]).name@ == name@;
                assert(self.voices@[t].name@ != name@);
            }
        }
        Err(PiperError::VoiceNotFound(String::from_str(name)))
    }

    /// Prepares one run of the synthesis executable: resolves the voice,
    /// picks the file the executable writes (the output itself for the
    /// native format, else the output with a `wav` extension), and lays out
    /// the arguments, the speed passed through as the length scale.
    pub fn plan_synthesis(&self, request: &SynthesisRequest) -> (r: Result<SynthesisPlan, PiperError>)
        requires
            self.wf(),
        ensures
            ({
                let name = match request.voice {
                    Some(n) => n@,
                    None => self.config_view().default_voice@,
                };
                match r {
                    Ok(p) => {
                        &&& self.catalog().contains_key(name)
                        &&& p.program@ == self.config_view().binary_path@
                        &&& p.intermediate@ == intermediate_of(request.output@, request.format)
                        &&& strings_view(p.args@) == piper_args(self.catalog()[name], p.intermediate@, request.speed)
                        &&& p.text@ == request.text@
                        &&& p.output@ == request.output@
                        &&& p.transcode == !is_native(request.format)
                    },
                    Err(PiperError::VoiceNotFound(n)) => !self.catalog().contains_key(name) && n@ == name,
                    Err(_) => false,
                }
            }),
    {
        let requested: Option<&str> = match &request.voice {
            Some(v) => Some(v.as_str()),
            None => None,
        };
        assert(match requested { Some(n) => n@ == request.voice->0@, None => request.voice is None });
        let voice = match self.resolve_voice(requested) {
            Ok(v) => v,
            Err(e) => return Err(e),
        };
        let native = match request.format {
            AudioFormat::Wav => true,
            AudioFormat::Mp3 => false,
        };
        proof {
            reveal_strlit("wav");
        }
        let intermediate = if native {
            request.output.clone()
        } else {
            with_extension(request.output.as_str(), "wav")
        };
        assert("wav"@ =~= seq!['w', 'a', 'v']);
        assert(intermediate@ == intermediate_of(request.output@, request.format));
        proof {
            reveal_strlit("--model");
            reveal_strlit("--output_file");
            reveal_strlit("--sentence_silence");
            reveal_strlit("0.2");
            reveal_strlit("--length_scale");
        }
        let mut args: Vec<String> = Vec::new();
        args.push(String::from_str("--model"));
        args.push(voice.model_path.clone());
        args.push(String::from_str("--output_file"));
        args.push(intermediate.clone());
        args.push(String::from_str("--sentence_silence"));
        args.push(String::from_str("0.2"));
        let ghost base = piper_args(voice.model_path@, intermediate@, None);
        assert forall|k: int| 0 <= k < 6 implies strings_view(args@)[k] == base[k] by {
            if k == 0 {} else if k == 1 {} else if k == 2 {} else if k == 3 {} else if k == 4 {} else {}
        }
        assert(strings_view(args@) =~= base);
        if let Some(speed) = request.speed {
            args.push(String::from_str("--length_scale"));
            args.push(crate::text::rate_text(speed));
            let ghost full = piper_args(voice.model_path@, intermediate@, request.speed);
            assert forall|k: int| 0 <= k < 8 implies strings_view(args@)[k] == full[k] by {
                if k < 6 {
                    assert(strings_view(args@)[k] == base[k]);
                } else if k == 6 {} else {}
            }
            assert(strings_view(args@) =~= full);
        }
        Ok(SynthesisPlan {
            program: self.config.binary_path.clone(),
            args,
            text: request.text.clone(),
            intermediate,
            output: request.output.clone(),
            transcode: !native,
        })
    }
}

/// Decides what follows a run of the synthesis executable from whether it
/// succeeded and the status it reported. A failed run is final: no retry.
pub fn after_synthesis(plan: &SynthesisPlan, success: bool, status: String) -> (r: Result<SynthesisStep, PiperError>)
    ensures
        !success ==> r == Err::<SynthesisStep, PiperError>(PiperError::CommandFailed(status)),
        success && plan.transcode ==> r == Ok::<SynthesisStep, PiperError>(SynthesisStep::Transcode(plan.intermediate)),
        success && !plan.transcode ==> r == Ok::<SynthesisStep, PiperError>(SynthesisStep::Done(plan.intermediate)),
{
    if !success {
        Err(PiperError::CommandFailed(status))
    } else if plan.transcode {
        Ok(SynthesisStep::Transcode(plan.intermediate.clone()))
    } else {
        Ok(SynthesisStep::Done(plan.intermediate.clone()))
    }
}

impl PiperError {
    /// The error as a sentence.
    pub fn message(&self) -> (r: String)
        ensures
            r@ == match self {
                PiperError::VoiceNotFound(n) => "voice '"@ + n@ + "' not found"@,
                PiperError::InvalidBinary(p) => "binary not executable: "@ + p@,
                PiperError::CommandFailed(s) => "command execution failed: "@ + s@,
            },
    {
        match self {
            PiperError::VoiceNotFound(n) => {
                let mut m = String::from_str("voice '");
                m.append(n.as_str());
                m.append("' not found");
                m
            },
            PiperError::InvalidBinary(p) => {
                let mut m = String::from_str("binary not executable: ");
                m.append(p.as_str());
                m
            },
            PiperError::CommandFailed(s) => {
                let mut m = String::from_str("command execution failed: ");
                m.append(s.as_str());
                m
            },
        }
    }
}

} // verus!
