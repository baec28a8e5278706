//! The configuration surface the engines consume: source and destination
//! roots, the marker tag and separator, locale paths and output options.
//! Loading this from files, flags or the environment is the caller's
//! business; the engines only read the resolved values.

use vstd::prelude::*;

verus! {

/// The error a library operation reports.
pub enum RoseyError {
    UnsupportedSubcommand,
    UnsupportedVersion,
}

/// The subcommands the tool performs.
pub enum RoseyCommand {
    Generate,
    Build,
    Check,
}

impl core::str::FromStr for RoseyCommand {
    type Err = RoseyError;

    fn from_str(s: &str) -> Result<RoseyCommand, RoseyError> {
        if crate::text::str_eq(s, "generate") {
            Ok(RoseyCommand::Generate)
        } else if crate::text::str_eq(s, "build") {
            Ok(RoseyCommand::Build)
        } else if crate::text::str_eq(s, "check") {
            Ok(RoseyCommand::Check)
        } else {
            Err(RoseyError::UnsupportedSubcommand)
        }
    }
}

/// The resolved configuration. Paths are relative to the working
/// directory and kept as plain strings.
pub struct RoseyPublicConfig {
    pub source: String,
    pub dest: String,
    pub version: u8,
    pub tag: String,
    pub separator: String,
    pub base: String,
    pub base_urls: String,
    pub locales: String,
    pub languages: Option<Vec<String>>,
    pub exclusions: String,
    pub images_source: Option<String>,
    pub default_language: String,
    pub default_language_at_root: bool,
    pub redirect_page: Option<String>,
    pub wrap: Option<Vec<String>>,
    pub wrap_class: Option<String>,
    pub verbose: bool,
}

impl RoseyPublicConfig {
    /// Only locale format versions one and two exist.
    pub open spec fn wf(self) -> bool {
        self.version == 1 || self.version == 2
    }
}

impl Default for RoseyPublicConfig {
    /// The defaults the tool ships with.
    fn default() -> (r: RoseyPublicConfig)
        ensures
            r.source@ == ""@,
            r.dest@ == ""@,
            r.version == 2,
            r.tag@ == "data-rosey"@,
            r.separator@ == ":"@,
            r.base@ == "rosey/base.json"@,
            r.base_urls@ == "rosey/base.urls.json"@,
            r.locales@ == "rosey/locales"@,
            r.languages is None,
            r.exclusions@ == "\\.(html?|json)$"@,
            r.images_source is None,
            r.default_language@ == "en"@,
            !r.default_language_at_root,
            r.redirect_page is None,
            r.wrap is None,
            r.wrap_class is None,
            !r.verbose,
            r.wf(),
    {
        RoseyPublicConfig {
            source: "".to_owned(),
            dest: "".to_owned(),
            version: 2,
            tag: "data-rosey".to_owned(),
            separator: ":".to_owned(),
            base: "rosey/base.json".to_owned(),
            base_urls: "rosey/base.urls.json".to_owned(),
            locales: "rosey/locales".to_owned(),
            languages: None,
            exclusions: "\\.(html?|json)$".to_owned(),
            images_source: None,
            default_language: "en".to_owned(),
            default_language_at_root: false,
            redirect_page: None,
            wrap: None,
            wrap_class: None,
            verbose: false,
        }
    }
}

/// The options a run is invoked with.
pub struct RoseyOptions {
    pub working_directory: String,
    pub serve: bool,
    pub config: RoseyPublicConfig,
}

} // verus!
