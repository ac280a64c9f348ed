//! A text-to-speech job pipeline: a queue of jobs with a proved life
//! cycle, a catalog of voice models, the plan of each run of the synthesis
//! executable and of the encoder, and the text pre-processing stages.
pub mod audio;
pub mod cmds;
pub mod dict;
pub mod paths;
pub mod piper;
pub mod queue;
pub mod ssml;
pub mod text;
