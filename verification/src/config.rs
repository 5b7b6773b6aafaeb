//! What a load is configured with.

use vstd::prelude::*;

verus! {

/// The settings of a load: which file to read, what marks a comment, what
/// parts a key from its value, and whether a variable that is already set is
/// replaced.
///
/// A loader starts from the defaults of [`EnvLoader::new`]; each `change_*`
/// method and `overwrite_envs` replaces one setting and leaves the others as
/// they are. No setting is checked when it is made.
#[derive(Debug)]
pub struct EnvLoader {
    file: String,
    comment: String,
    value_delimiter: String,
    overwrite: bool,
}

/// The settings of an [`EnvLoader`], as contracts see them.
pub ghost struct Settings {
    pub file: Seq<char>,
    pub comment: Seq<char>,
    pub delimiter: Seq<char>,
    pub overwrite: bool,
}

/// The settings that a new loader has.
pub open spec fn default_settings() -> Settings {
    Settings { file: "./.env_plus"@, comment: "//"@, delimiter: "="@, overwrite: false }
}

impl View for EnvLoader {
    type V = Settings;

    closed spec fn view(&self) -> Settings {
        Settings {
            file: self.file@,
            comment: self.comment@,
            delimiter: self.value_delimiter@,
            overwrite: self.overwrite,
        }
    }
}

impl Clone for EnvLoader {
    fn clone(&self) -> (r: EnvLoader)
        ensures
            r@ == self@,
    {
        EnvLoader {
            file: self.file.clone(),
            comment: self.comment.clone(),
            value_delimiter: self.value_delimiter.clone(),
            overwrite: self.overwrite,
        }
    }
}

impl EnvLoader {
    /// A loader with the default settings: the file `./.env_plus`, the
    /// comment marker `//`, the delimiter `=`, and no overwriting.
    pub fn new() -> (r: EnvLoader)
        ensures
            r@ == default_settings(),
    {
        EnvLoader {
            file: "./.env_plus".to_owned(),
            comment: "//".to_owned(),
            value_delimiter: "=".to_owned(),
            overwrite: false,
        }
    }

    /// Sets the path of the file to read.
    pub fn change_file(self, path: String) -> (r: EnvLoader)
        ensures
            r@ == (Settings { file: path@, ..self@ }),
    {
        let mut r = self;
        r.file = path;
        r
    }

    /// Sets the comment marker.
    pub fn change_comment(self, comment: String) -> (r: EnvLoader)
        ensures
            r@ == (Settings { comment: comment@, ..self@ }),
    {
        let mut r = self;
        r.comment = comment;
        r
    }

    /// Sets the delimiter between a key and its value.
    pub fn change_delimiter(self, delimiter: String) -> (r: EnvLoader)
        ensures
            r@ == (Settings { delimiter: delimiter@, ..self@ }),
    {
        let mut r = self;
        r.value_delimiter = delimiter;
        r
    }

    /// Sets whether a variable that is already set is replaced.
    pub fn overwrite_envs(self, overwrite: bool) -> (r: EnvLoader)
        ensures
            r@ == (Settings { overwrite, ..self@ }),
    {
        let mut r = self;
        r.overwrite = overwrite;
        r
    }

    /// The path of the file to read.
    pub fn file(&self) -> (r: &str)
        ensures
            r@ == self@.file,
    {
        self.file.as_str()
    }

    /// The comment marker.
    pub fn comment(&self) -> (r: &str)
        ensures
            r@ == self@.comment,
    {
        self.comment.as_str()
    }

    /// The delimiter between a key and its value.
    pub fn delimiter(&self) -> (r: &str)
        ensures
            r@ == self@.delimiter,
    {
        self.value_delimiter.as_str()
    }

    /// Whether a variable that is already set is replaced.
    pub fn overwrites(&self) -> (r: bool)
        ensures
            r == self@.overwrite,
    {
        self.overwrite
    }
}

} // verus!
