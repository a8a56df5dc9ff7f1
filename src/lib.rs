//! Phonetic similarity of words, and substitution of words in free text by the
//! nearest-sounding words of a small vocabulary.
//!
//! A word's pronunciation is a sequence of phones placed on vowel and
//! consonant charts (`phone`, `pronounce`); the distance between two
//! pronunciations compares them group by group after normalization. Words are
//! pronounced through a dictionary (`builder`, `dict`), and `replacer` cuts a
//! text into runs and replaces each word run by its nearest vocabulary entry.
//! `vocab`, `names` and `charts` read and prepare the data that feeds them.
//! Coordinates and distances are fixed-point integers, `phone::SCALE` per unit.

pub mod builder;
pub mod charts;
pub mod dict;
pub mod names;
pub mod phone;
pub mod pronounce;
pub mod replacer;
pub mod runs;
pub mod text;
pub mod vocab;
