//! The cognitive model of an embodied system and the decisions of the face
//! server that runs it.

pub mod asr;
pub mod chars;
pub mod commentary;
pub mod commentator;
pub mod context_frame;
pub mod decimal;
pub mod digest;
pub mod experience;
pub mod face_detection;
pub mod face_memory;
pub mod faculty;
pub mod field_vision;
pub mod ident;
pub mod impression;
pub mod ingestion;
pub mod json;
pub mod llama_cpp;
pub mod llm;
pub mod llm_scheduler;
pub mod logs;
pub mod memory;
pub mod messages;
pub mod mock;
pub mod number;
pub mod pipeline;
pub mod realtime_experience;
pub mod scene;
pub mod scene_context;
pub mod segmenter;
pub mod sensation;
pub mod seqs;
pub mod server;
pub mod stable_id;
pub mod stops;
pub mod text;
pub mod time;
pub mod timeline;
pub mod vision;
pub mod voice;
pub mod voice_identity;
pub mod voice_memory;
pub mod voice_prompt;
pub mod voice_records;
pub mod voice_text;
pub mod wit;
