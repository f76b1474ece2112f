//! The environment that the configuration is found in.
use vstd::prelude::*;
use vstd::string::StrSliceExecFns;
use vstd::utf8;

use crate::dictionary::Dictionary;
use crate::path::{FilePath, FilePathView};

verus! {

/// The platforms that keep their configuration in different places.
#[derive(Clone, Copy, Debug, PartialEq, Eq, Structural)]
pub enum Platform {
    Windows,
    MacOs,
    Other,
}

/// The environment variables, and what the platform says of its directories.
pub struct Env {
    /// The variables, each with the bytes of its value.
    pub vars: Dictionary<Vec<u8>>,
    pub platform: Platform,
    /// The home directory that the platform names.
    pub home_dir: Option<FilePath>,
    /// The directory for configuration that the platform names.
    pub config_dir: Option<FilePath>,
    /// Whether `HOME` is taken in place of the home directory that the platform names.
    pub home_from_env: bool,
}

/// Calls `std::str::from_utf8`: the text that the bytes hold in UTF-8, if that is what they hold.
#[verifier::external_body]
fn text_of(bytes: &Vec<u8>) -> (r: Option<String>)
    ensures
        match r {
            Some(text) => utf8::valid_utf8(bytes@) && text@ == utf8::decode_utf8(bytes@),
            None => !utf8::valid_utf8(bytes@),
        },
{
    match std::str::from_utf8(bytes) {
        Ok(text) => Some(text.to_owned()),
        Err(_) => None,
    }
}

impl Env {
    /// The bytes of a variable.
    pub open spec fn bytes(self, name: Seq<char>) -> Option<Seq<u8>> {
        if self.vars@.dom().contains(name) {
            Some(self.vars@[name]@)
        } else {
            None
        }
    }

    /// The text of a variable, if it is one in UTF-8.
    pub open spec fn text(self, name: Seq<char>) -> Option<Seq<char>> {
        match self.bytes(name) {
            Some(bytes) => if utf8::valid_utf8(bytes) {
                Some(utf8::decode_utf8(bytes))
            } else {
                None
            },
            None => None,
        }
    }

    /// The path that a variable holds.
    pub open spec fn path(self, name: Seq<char>) -> Option<FilePathView> {
        match self.bytes(name) {
            Some(base) => Some(FilePathView { base, names: seq![] }),
            None => None,
        }
    }

    /// An environment without variables.
    pub fn new(
        platform: Platform,
        home_dir: Option<FilePath>,
        config_dir: Option<FilePath>,
        home_from_env: bool,
    ) -> (r: Env)
        ensures
            r.vars@ == Map::<Seq<char>, Vec<u8>>::empty(),
            r.platform == platform,
            r.home_dir == home_dir,
            r.config_dir == config_dir,
            r.home_from_env == home_from_env,
    {
        Env { vars: Dictionary::new(), platform, home_dir, config_dir, home_from_env }
    }

    /// Sets a variable to a text.
    pub fn insert(&mut self, name: &str, value: &str)
        ensures
            forall|other: Seq<char>|
                #![trigger final(self).bytes(other)]
                final(self).bytes(other) == (if other == name@ {
                    Some(utf8::encode_utf8(value@))
                } else {
                    old(self).bytes(other)
                }),
            final(self).platform == old(self).platform,
            final(self).home_dir == old(self).home_dir,
            final(self).config_dir == old(self).config_dir,
            final(self).home_from_env == old(self).home_from_env,
    {
        self.insert_os(name, value.as_bytes_vec());
    }

    /// Sets a variable to the given bytes.
    pub fn insert_os(&mut self, name: &str, value: Vec<u8>)
        ensures
            forall|other: Seq<char>|
                #![trigger final(self).bytes(other)]
                final(self).bytes(other) == (if other == name@ {
                    Some(value@)
                } else {
                    old(self).bytes(other)
                }),
            final(self).platform == old(self).platform,
            final(self).home_dir == old(self).home_dir,
            final(self).config_dir == old(self).config_dir,
            final(self).home_from_env == old(self).home_from_env,
    {
        self.vars.insert(name.to_owned(), value);
    }

    /// The path that a variable holds.
    pub fn get_path(&self, name: &str) -> (r: Option<FilePath>)
        ensures
            match r {
                Some(path) => self.path(name@) == Some(path@),
                None => self.path(name@) is None,
            },
    {
        match self.vars.get(name) {
            Some(bytes) => {
                let copy = bytes.clone();
                assert(copy@ =~= bytes@);
                Some(FilePath::from_bytes(copy))
            },
            None => None,
        }
    }

    /// The text of a variable, if it is one in UTF-8.
    pub fn get_env(&self, name: &str) -> (r: Option<String>)
        ensures
            match r {
                Some(text) => self.text(name@) == Some(text@),
                None => self.text(name@) is None,
            },
    {
        match self.vars.get(name) {
            Some(bytes) => text_of(bytes),
            None => None,
        }
    }
}

} // verus!
