//! Which audio files pronounce an entry, and in which order they are to be played.
//!
//! Fetching and playing a file is left to the caller: here the tree is only read.

use crate::models::Entry;
use crate::models::HeadwordEntry;
use crate::models::LexicalEntry;
use crate::models::Pronunciation;
use crate::models::RetrieveEntry;
use vstd::prelude::*;

verus! {

/// A value that audio files pronounce.
pub trait Pronounce {
    /// The audio files of this value, in playing order.
    spec fn audio(&self) -> Seq<String>;

    /// Lists the audio files to play for this value, in playing order.
    fn audio_files(&self) -> (files: Vec<String>)
        ensures
            files@ == self.audio(),
    ;
}

/// The audio files of the items, one item after the other.
pub open spec fn seq_audio<T: Pronounce>(items: Seq<T>) -> Seq<String>
    decreases items.len(),
{
    if items.len() == 0 {
        Seq::empty()
    } else {
        seq_audio(items.drop_last()) + items.last().audio()
    }
}

impl Pronounce for Pronunciation {
    /// Its audio file, where it has one.
    open spec fn audio(&self) -> Seq<String> {
        match self.audio_file {
            Some(file) => seq![file],
            None => Seq::empty(),
        }
    }

    fn audio_files(&self) -> (files: Vec<String>) {
        let mut files: Vec<String> = Vec::new();
        if let Some(file) = &self.audio_file {
            files.push(file.clone());
        }
        files
    }
}

impl<T: Pronounce> Pronounce for Option<T> {
    /// Nothing is played for a value that is absent.
    open spec fn audio(&self) -> Seq<String> {
        match self {
            Some(value) => value.audio(),
            None => Seq::empty(),
        }
    }

    fn audio_files(&self) -> (files: Vec<String>) {
        match self {
            Some(value) => value.audio_files(),
            None => Vec::new(),
        }
    }
}

impl<T: Pronounce> Pronounce for Vec<T> {
    /// The items are played in order.
    open spec fn audio(&self) -> Seq<String> {
        seq_audio(self@)
    }

    fn audio_files(&self) -> (files: Vec<String>) {
        let mut files: Vec<String> = Vec::new();
        let mut i: usize = 0;
        while i < self.len()
            invariant
                i <= self.len(),
                files@ == seq_audio(self@.take(i as int)),
            decreases self.len() - i,
        {
            assert(self@.take(i + 1).drop_last() == self@.take(i as int));
            let mut own = self[i].audio_files();
            files.append(&mut own);
            i += 1;
        }
        assert(self@.take(i as int) == self@);
        files
    }
}

impl Pronounce for Entry {
    open spec fn audio(&self) -> Seq<String> {
        self.pronunciations.audio()
    }

    fn audio_files(&self) -> (files: Vec<String>) {
        self.pronunciations.audio_files()
    }
}

impl Pronounce for LexicalEntry {
    open spec fn audio(&self) -> Seq<String> {
        self.entries.audio()
    }

    fn audio_files(&self) -> (files: Vec<String>) {
        self.entries.audio_files()
    }
}

impl Pronounce for HeadwordEntry {
    /// Only the first lexical entry is played: the others are taken to sound the same.
    open spec fn audio(&self) -> Seq<String> {
        if self.lexical_entries@.len() == 0 {
            Seq::empty()
        } else {
            self.lexical_entries@[0].audio()
        }
    }

    fn audio_files(&self) -> (files: Vec<String>) {
        if self.lexical_entries.len() == 0 {
            return Vec::new();
        }
        self.lexical_entries[0].audio_files()
    }
}

impl Pronounce for RetrieveEntry {
    open spec fn audio(&self) -> Seq<String> {
        self.headword_entries.audio()
    }

    fn audio_files(&self) -> (files: Vec<String>) {
        self.headword_entries.audio_files()
    }
}

} // verus!
