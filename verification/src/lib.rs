//! The thumbnail of a video, chosen among frames sampled across it, and what
//! is told beside it; and the notifications of an application.
//!
//! Opening the file, seeking and decoding are the caller's, and so is drawing.
//! This library decides and computes: which step of the sampling is due and
//! what each outcome leads to (`extraction`), how a decoded frame is brought
//! into canonical form (`frame`), how good a frame looks (`quality`), which
//! frame is chosen (`select`), at what size frames are shown and where in the
//! video they are sampled (`stream`), what is told of the video (`metadata`,
//! `text`, `names`), what stands for the video where no frame could be had
//! (`thumbnail`), and what the preview of a file holds in the end
//! (`preview`). `toast` holds the notifications.

pub mod extraction;
pub mod frame;
pub mod metadata;
pub mod names;
pub mod preview;
pub mod quality;
pub mod select;
pub mod stream;
pub mod text;
pub mod thumbnail;
pub mod toast;
