//! Vocabulary review: picking the words of a review session, checking answers
//! against the stored explanations, the status a word reaches when it is
//! answered correctly, and the signed query sent to the Youdao dictionary.
pub mod models;
pub mod text;
pub mod explanations;
pub mod supervisor;
pub mod youdao;
