//! Watch configuration: include patterns by extension, exclude globs, and
//! the size, history and interval settings, with dotted-key access. Glob
//! matching itself is done by an outside crate behind a named result.

use vstd::prelude::*;

verus! {

use crate::path_util::{extension_of, normalize_rel_path, normalized};
use crate::text::{
    dec_value, is_dec_u64, join_comma, joined_comma, parse_u64, split_on, split_string, str_eq,
    str_views, trim_str, trimmed_spaces, u64_to_string,
};

/// What to track: include globs judged by their extension suffix, and
/// exclude globs applied first.
pub struct WatchConfig {
    pub patterns: Vec<String>,
    pub exclude: Vec<String>,
}

/// Size and timing limits of the engine.
pub struct Settings {
    /// Hard cap on total index entries.
    pub max_history: usize,
    /// Files larger than this are ignored.
    pub max_file_size: u64,
    /// Cap on the total bytes of referenced snapshots; trim enforces it.
    pub max_quota: u64,
    /// Seconds between periodic full scans, at least 2.
    pub scan_interval: u64,
    /// Seconds between periodic orphan cleans, at least 2.
    pub clean_interval: u64,
}

/// The whole configuration of one watched root.
pub struct Config {
    pub watch: WatchConfig,
    pub settings: Settings,
}

/// Whether a shell-style glob matches a path. The answer is a function of
/// the two strings alone; a pattern that does not compile matches nothing.
pub uninterp spec fn glob_match(pattern: Seq<char>, path: Seq<char>) -> bool;

/// Relies on glob's `Pattern::new` and `Pattern::matches`: deterministic
/// shell-style matching of a path against a pattern, where a pattern that
/// fails to compile matches nothing.
#[verifier::external_body]
fn glob_matches(pattern: &str, path: &str) -> (r: bool)
    ensures
        r == glob_match(pattern@, path@),
{
    match glob::Pattern::new(pattern) {
        Ok(p) => p.matches(path),
        Err(_) => false,
    }
}

/// Whether any exclude glob matches the path, or the directory form of it
/// when one is given.
pub open spec fn excluded_spec(exclude: Seq<String>, path: Seq<char>, dir: Option<Seq<char>>) -> bool {
    exists|i: int|
        0 <= i < exclude.len() && (glob_match((#[trigger] exclude[i])@, path) || (
        dir matches Some(d) && glob_match(exclude[i]@, d)))
}

/// An include pattern admits extension `ext` when it ends in a dot
/// followed by exactly that extension.
pub open spec fn ends_with_ext(pattern: Seq<char>, ext: Seq<char>) -> bool {
    let sfx = seq!['.'] + ext;
    pattern.len() >= sfx.len() && pattern.skip(pattern.len() - sfx.len()) == sfx
}

/// Whether some include pattern admits extension `ext`.
pub open spec fn has_include_for(patterns: Seq<String>, ext: Seq<char>) -> bool {
    exists|i: int| 0 <= i < patterns.len() && ends_with_ext((#[trigger] patterns[i])@, ext)
}

/// Whether a relative path is tracked: not excluded, and carrying an
/// extension that some include pattern admits.
pub open spec fn matches_path_spec(c: Config, path: Seq<char>) -> bool {
    let norm = normalized(path);
    &&& !excluded_spec(c.watch.exclude@, norm, None::<Seq<char>>)
    &&& (extension_of(norm) matches Some(e) && has_include_for(c.watch.patterns@, e))
}

/// Exclusion wins: a path that any exclude glob matches is never
/// tracked, so nothing is ever recorded or snapshotted for it.
pub proof fn lemma_excluded_never_matches(c: Config, path: Seq<char>)
    requires
        excluded_spec(c.watch.exclude@, normalized(path), None::<Seq<char>>),
    ensures
        !matches_path_spec(c, path),
{
}

/// The view of an optional string slice.
pub open spec fn opt_str_view(s: Option<&str>) -> Option<Seq<char>> {
    match s {
        Some(x) => Some(x@),
        None => None,
    }
}

/// A comma-separated list value, each item trimmed of blanks.
pub open spec fn list_value(s: Seq<char>) -> Seq<Seq<char>> {
    split_on(s, ',').map_values(|p: Seq<char>| trimmed_spaces(p))
}

impl Config {
    /// Whether `path_str`, or the directory form `dir_str` when given,
    /// matches any exclude glob.
    #[verifier::loop_isolation(false)]
    pub fn excluded_by_patterns(&self, path_str: &str, dir_str: Option<&str>) -> (r: bool)
        ensures
            r == excluded_spec(self.watch.exclude@, path_str@, opt_str_view(dir_str)),
    {
        let n = self.watch.exclude.len();
        let mut i: usize = 0;
        while i < n
            invariant
                i <= n,
                forall|k: int|
                    0 <= k < i ==> !(glob_match((#[trigger] self.watch.exclude@[k])@, path_str@)
                        || (opt_str_view(dir_str) matches Some(d) && glob_match(
                        self.watch.exclude@[k]@,
                        d,
                    ))),
            decreases n - i,
        {
            if glob_matches(self.watch.exclude[i].as_str(), path_str) {
                return true;
            }
            match dir_str {
                Some(d) => {
                    if glob_matches(self.watch.exclude[i].as_str(), d) {
                        return true;
                    }
                },
                None => {},
            }
            i = i + 1;
        }
        false
    }

    /// Whether a path relative to the watched root is tracked: not
    /// excluded, and of an included extension.
    #[verifier::loop_isolation(false)]
    pub fn matches_path(&self, rel_path: &str) -> (r: bool)
        ensures
            r == matches_path_spec(*self, rel_path@),
    {
        let norm = normalize_rel_path(rel_path);
        if self.excluded_by_patterns(norm.as_str(), None) {
            return false;
        }
        match crate::path_util::file_extension(norm.as_str()) {
            None => false,
            Some(ext) => {
                let mut sfx = String::new();
                crate::text::push_char(&mut sfx, '.');
                sfx.append(ext.as_str());
                proof {
                    assert(sfx@ =~= seq!['.'] + ext@);
                }
                let n = self.watch.patterns.len();
                let mut i: usize = 0;
                while i < n
                    invariant
                        i <= n,
                        forall|k: int|
                            0 <= k < i ==> !ends_with_ext(
                                (#[trigger] self.watch.patterns@[k])@,
                                ext@,
                            ),
                    decreases n - i,
                {
                    if crate::text::str_ends_with(self.watch.patterns[i].as_str(), sfx.as_str()) {
                        return true;
                    }
                    i = i + 1;
                }
                false
            },
        }
    }

    /// Whether a directory should be pruned from a tree walk: its path,
    /// or the path with a trailing slash, matches an exclude glob.
    pub fn is_excluded_dir(&self, rel_path: &str) -> (r: bool)
        ensures
            r == ({
                let norm = normalized(rel_path@);
                excluded_spec(self.watch.exclude@, norm, Some(norm + seq!['/']))
            }),
    {
        let norm = normalize_rel_path(rel_path);
        let mut dir = norm.clone();
        crate::text::push_char(&mut dir, '/');
        proof {
            assert(dir@ =~= normalized(rel_path@) + seq!['/']);
        }
        self.excluded_by_patterns(norm.as_str(), Some(dir.as_str()))
    }

    /// Reads one configuration value by its dotted key; numbers render in
    /// decimal, lists join with commas.
    pub fn get_value(&self, key: &str) -> (r: Result<String, String>)
        ensures
            ({
                let k = key@;
                if k == "settings.max_history"@ {
                    r matches Ok(s) && dec_value(s@) == self.settings.max_history
                } else if k == "settings.max_file_size"@ {
                    r matches Ok(s) && dec_value(s@) == self.settings.max_file_size
                } else if k == "settings.max_quota"@ {
                    r matches Ok(s) && dec_value(s@) == self.settings.max_quota
                } else if k == "settings.scan_interval"@ {
                    r matches Ok(s) && dec_value(s@) == self.settings.scan_interval
                } else if k == "settings.clean_interval"@ {
                    r matches Ok(s) && dec_value(s@) == self.settings.clean_interval
                } else if k == "watch.patterns"@ {
                    r matches Ok(s) && s@ == joined_comma(str_views(self.watch.patterns@))
                } else if k == "watch.exclude"@ {
                    r matches Ok(s) && s@ == joined_comma(str_views(self.watch.exclude@))
                } else {
                    r is Err
                }
            }),
    {
        if str_eq(key, "settings.max_history") {
            Ok(u64_to_string(self.settings.max_history as u64))
        } else if str_eq(key, "settings.max_file_size") {
            Ok(u64_to_string(self.settings.max_file_size))
        } else if str_eq(key, "settings.max_quota") {
            Ok(u64_to_string(self.settings.max_quota))
        } else if str_eq(key, "settings.scan_interval") {
            Ok(u64_to_string(self.settings.scan_interval))
        } else if str_eq(key, "settings.clean_interval") {
            Ok(u64_to_string(self.settings.clean_interval))
        } else if str_eq(key, "watch.patterns") {
            Ok(join_comma(&self.watch.patterns))
        } else if str_eq(key, "watch.exclude") {
            Ok(join_comma(&self.watch.exclude))
        } else {
            let mut msg: String = "Unknown config key '".to_owned();
            msg.append(key);
            msg.append(
                "'. Valid keys: settings.max_history, settings.max_file_size, settings.max_quota, settings.scan_interval, settings.clean_interval, watch.patterns, watch.exclude",
            );
            Err(msg)
        }
    }

    /// Writes one configuration value by its dotted key. Numbers must be
    /// decimal; the quota must be positive and the intervals at least 2;
    /// list values split on commas, each item trimmed.
    pub fn set_value(&mut self, key: &str, value: &str) -> (r: Result<(), String>)
        ensures
            ({
                let k = key@;
                let v = value@;
                let o = *old(self);
                let f = *final(self);
                if k == "settings.max_history"@ {
                    (if is_dec_u64(v) && dec_value(v) <= usize::MAX as int {
                    &&& r is Ok
                    &&& f.settings.max_history == dec_value(v)
                    &&& f.settings.max_file_size == o.settings.max_file_size
                    &&& f.settings.max_quota == o.settings.max_quota
                    &&& f.settings.scan_interval == o.settings.scan_interval
                    &&& f.settings.clean_interval == o.settings.clean_interval
                    &&& f.watch == o.watch
                    } else {
                        r is Err && f == o
                    })
                } else if k == "settings.max_file_size"@ {
                    (if is_dec_u64(v) {
                    &&& r is Ok
                    &&& f.settings.max_file_size == dec_value(v)
                    &&& f.settings.max_history == o.settings.max_history
                    &&& f.settings.max_quota == o.settings.max_quota
                    &&& f.settings.scan_interval == o.settings.scan_interval
                    &&& f.settings.clean_interval == o.settings.clean_interval
                    &&& f.watch == o.watch
                    } else {
                        r is Err && f == o
                    })
                } else if k == "settings.max_quota"@ {
                    (if is_dec_u64(v) && dec_value(v) > 0 {
                    &&& r is Ok
                    &&& f.settings.max_quota == dec_value(v)
                    &&& f.settings.max_history == o.settings.max_history
                    &&& f.settings.max_file_size == o.settings.max_file_size
                    &&& f.settings.scan_interval == o.settings.scan_interval
                    &&& f.settings.clean_interval == o.settings.clean_interval
                    &&& f.watch == o.watch
                    } else if is_dec_u64(v) {
                        &&& f == o
                        &&& (r matches Err(m) && m@.len() >= "max_quota must be > 0, got "@.len()
                            && m@.take("max_quota must be > 0, got "@.len() as int)
                            == "max_quota must be > 0, got "@)
                    } else {
                        r is Err && f == o
                    })
                } else if k == "settings.scan_interval"@ {
                    (if is_dec_u64(v) && dec_value(v) >= 2 {
                    &&& r is Ok
                    &&& f.settings.scan_interval == dec_value(v)
                    &&& f.settings.max_history == o.settings.max_history
                    &&& f.settings.max_file_size == o.settings.max_file_size
                    &&& f.settings.max_quota == o.settings.max_quota
                    &&& f.settings.clean_interval == o.settings.clean_interval
                    &&& f.watch == o.watch
                    } else if is_dec_u64(v) {
                        &&& f == o
                        &&& (r matches Err(m) && m@.len() >= "scan_interval must be >= 2, got "@.len()
                            && m@.take("scan_interval must be >= 2, got "@.len() as int)
                            == "scan_interval must be >= 2, got "@)
                    } else {
                        r is Err && f == o
                    })
                } else if k == "settings.clean_interval"@ {
                    (if is_dec_u64(v) && dec_value(v) >= 2 {
                    &&& r is Ok
                    &&& f.settings.clean_interval == dec_value(v)
                    &&& f.settings.max_history == o.settings.max_history
                    &&& f.settings.max_file_size == o.settings.max_file_size
                    &&& f.settings.max_quota == o.settings.max_quota
                    &&& f.settings.scan_interval == o.settings.scan_interval
                    &&& f.watch == o.watch
                    } else if is_dec_u64(v) {
                        &&& f == o
                        &&& (r matches Err(m) && m@.len() >= "clean_interval must be >= 2, got "@.len()
                            && m@.take("clean_interval must be >= 2, got "@.len() as int)
                            == "clean_interval must be >= 2, got "@)
                    } else {
                        r is Err && f == o
                    })
                } else if k == "watch.patterns"@ {
                    &&& r is Ok
                    &&& str_views(f.watch.patterns@) == list_value(v)
                    &&& f.watch.exclude == o.watch.exclude
                    &&& f.settings == o.settings
                } else if k == "watch.exclude"@ {
                    &&& r is Ok
                    &&& str_views(f.watch.exclude@) == list_value(v)
                    &&& f.watch.patterns == o.watch.patterns
                    &&& f.settings == o.settings
                } else {
                    r is Err && f == o
                }
            }),
    {
        if str_eq(key, "settings.max_history") {
            match parse_u64(value) {
                Some(v) => {
                    if v <= usize::MAX as u64 {
                        self.settings.max_history = v as usize;
                        Ok(())
                    } else {
                        Err(Self::bad_value_message("max_history", value))
                    }
                },
                None => Err(Self::bad_value_message("max_history", value)),
            }
        } else if str_eq(key, "settings.max_file_size") {
            match parse_u64(value) {
                Some(v) => {
                    self.settings.max_file_size = v;
                    Ok(())
                },
                None => Err(Self::bad_value_message("max_file_size", value)),
            }
        } else if str_eq(key, "settings.max_quota") {
            match parse_u64(value) {
                Some(v) => {
                    if v > 0 {
                        self.settings.max_quota = v;
                        Ok(())
                    } else {
                        Err(Self::limit_message("max_quota must be > 0, got ", v))
                    }
                },
                None => Err(Self::bad_value_message("max_quota", value)),
            }
        } else if str_eq(key, "settings.scan_interval") {
            match parse_u64(value) {
                Some(v) => {
                    if v >= 2 {
                        self.settings.scan_interval = v;
                        Ok(())
                    } else {
                        Err(Self::limit_message("scan_interval must be >= 2, got ", v))
                    }
                },
                None => Err(Self::bad_value_message("scan_interval", value)),
            }
        } else if str_eq(key, "settings.clean_interval") {
            match parse_u64(value) {
                Some(v) => {
                    if v >= 2 {
                        self.settings.clean_interval = v;
                        Ok(())
                    } else {
                        Err(Self::limit_message("clean_interval must be >= 2, got ", v))
                    }
                },
                None => Err(Self::bad_value_message("clean_interval", value)),
            }
        } else if str_eq(key, "watch.patterns") {
            self.watch.patterns = Self::split_list(value);
            Ok(())
        } else if str_eq(key, "watch.exclude") {
            self.watch.exclude = Self::split_list(value);
            Ok(())
        } else {
            let mut msg: String = "Unknown config key '".to_owned();
            msg.append(key);
            msg.append(
                "'. Valid keys: settings.max_history, settings.max_file_size, settings.max_quota, settings.scan_interval, settings.clean_interval, watch.patterns, watch.exclude",
            );
            Err(msg)
        }
    }

    /// A comma-separated list value, split and trimmed.
    #[verifier::loop_isolation(false)]
    fn split_list(value: &str) -> (r: Vec<String>)
        ensures
            str_views(r@) == list_value(value@),
    {
        let parts = split_string(value, ',');
        let mut r: Vec<String> = Vec::new();
        let n = parts.len();
        let mut i: usize = 0;
        while i < n
            invariant
                i <= n,
                n == parts@.len(),
                r@.len() == i,
                forall|k: int| 0 <= k < i ==> (#[trigger] r@[k])@ == trimmed_spaces(parts@[k]@),
            decreases n - i,
        {
            r.push(trim_str(parts[i].as_str()));
            i = i + 1;
        }
        proof {
            assert(str_views(r@) =~= list_value(value@));
        }
        r
    }

    /// The complaint for a value the key cannot parse.
    fn bad_value_message(field: &str, value: &str) -> (r: String) {
        let mut msg: String = "Invalid value for ".to_owned();
        msg.append(field);
        msg.append(": ");
        msg.append(value);
        msg
    }

    /// The complaint for a parsed value outside a key's limit: the rule,
    /// then the value.
    fn limit_message(rule: &str, v: u64) -> (r: String)
        ensures
            r@.len() >= rule@.len(),
            r@.take(rule@.len() as int) == rule@,
    {
        let mut msg: String = rule.to_owned();
        let digits = u64_to_string(v);
        msg.append(digits.as_str());
        proof {
            assert(msg@.take(rule@.len() as int) =~= rule@);
        }
        msg
    }
}

impl Default for Config {
    /// The configuration a fresh checkout starts from.
    fn default() -> (r: Config)
        ensures
            r.settings.max_history == 10000,
            r.settings.max_file_size == 31457280,
            r.settings.max_quota == 1073741824,
            r.settings.scan_interval == 300,
            r.settings.clean_interval == 3600,
            r.watch.patterns@.len() == 14,
            r.watch.patterns@[0]@ == "*.rs"@,
            r.watch.patterns@[1]@ == "*.py"@,
            r.watch.patterns@[2]@ == "*.md"@,
            r.watch.patterns@[3]@ == "*.txt"@,
            r.watch.patterns@[4]@ == "*.json"@,
            r.watch.patterns@[5]@ == "*.yml"@,
            r.watch.patterns@[6]@ == "*.yaml"@,
            r.watch.patterns@[7]@ == "*.toml"@,
            r.watch.patterns@[8]@ == "*.js"@,
            r.watch.patterns@[9]@ == "*.ts"@,
            r.watch.patterns@[10]@ == "*.vision"@,
            r.watch.patterns@[11]@ == "*.task"@,
            r.watch.patterns@[12]@ == "*.conf"@,
            r.watch.patterns@[13]@ == "*.ini"@,
            r.watch.exclude@.len() == 4,
            r.watch.exclude@[0]@ == "**/target/**"@,
            r.watch.exclude@[1]@ == "**/node_modules/**"@,
            r.watch.exclude@[2]@ == "**/.git/**"@,
            r.watch.exclude@[3]@ == "**/.ftm/**"@,
    {
        let mut patterns: Vec<String> = Vec::new();
        patterns.push("*.rs".to_owned());
        patterns.push("*.py".to_owned());
        patterns.push("*.md".to_owned());
        patterns.push("*.txt".to_owned());
        patterns.push("*.json".to_owned());
        patterns.push("*.yml".to_owned());
        patterns.push("*.yaml".to_owned());
        patterns.push("*.toml".to_owned());
        patterns.push("*.js".to_owned());
        patterns.push("*.ts".to_owned());
        patterns.push("*.vision".to_owned());
        patterns.push("*.task".to_owned());
        patterns.push("*.conf".to_owned());
        patterns.push("*.ini".to_owned());
        let mut exclude: Vec<String> = Vec::new();
        exclude.push("**/target/**".to_owned());
        exclude.push("**/node_modules/**".to_owned());
        exclude.push("**/.git/**".to_owned());
        exclude.push("**/.ftm/**".to_owned());
        Config {
            watch: WatchConfig { patterns, exclude },
            settings: Settings {
                max_history: 10000,
                max_file_size: 31457280,
                max_quota: 1073741824,
                scan_interval: 300,
                clean_interval: 3600,
            },
        }
    }
}

} // verus!
