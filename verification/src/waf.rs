//! Web application firewall: four compiled pattern groups (SQL injection,
//! cross-site scripting, path traversal, command injection) plus an optional
//! user-supplied group, scanned in order against a size-capped prefix of the
//! payload. The first match wins; `Block` mode denies, `DetectOnly` reports.

use vstd::prelude::*;

verus! {

/// The compiled pattern-set type of the regex engine.
#[verifier::external_type_specification]
#[verifier::external_body]
pub struct ExRegexSet(regex::RegexSet);

/// The patterns a compiled set was built from.
pub uninterp spec fn regex_set_patterns(rs: regex::RegexSet) -> Seq<Seq<char>>;

/// Whether a list of patterns compiles.
pub uninterp spec fn regex_patterns_ok(patterns: Seq<Seq<char>>) -> bool;

/// Whether any pattern of the list matches the text; a function of the
/// patterns and the text alone.
pub uninterp spec fn regex_set_matches(patterns: Seq<Seq<char>>, text: Seq<char>) -> bool;

/// Relies on regex::RegexSet::new: compiling a pattern list succeeds exactly
/// when every pattern is a valid regex, and the compiled set holds exactly
/// those patterns.
#[verifier::external_body]
fn regex_set_new(patterns: &Vec<String>) -> (r: Result<regex::RegexSet, String>)
    ensures
        r.is_ok() <==> regex_patterns_ok(patterns@.map_values(|p: String| p@)),
        (match r {
            Ok(rs) => regex_set_patterns(rs) == patterns@.map_values(|p: String| p@),
            Err(_) => true,
        }),
{
    match regex::RegexSet::new(patterns) {
        Ok(rs) => Ok(rs),
        Err(e) => Err(e.to_string()),
    }
}

/// Relies on regex::RegexSet::is_match: whether any pattern of the set
/// matches the text, a deterministic function of the set's patterns and the
/// text.
#[verifier::external_body]
fn regex_set_is_match(rs: &regex::RegexSet, text: &str) -> (r: bool)
    ensures
        r == regex_set_matches(regex_set_patterns(*rs), text@),
{
    rs.is_match(text)
}

/// WAF errors.
#[derive(Debug, Clone)]
pub enum WafError {
    /// A pattern group failed to compile.
    PatternError(String),
    /// A request was denied.
    Blocked { reason: String, rule_id: String },
}

/// The outcome of one scan.
#[derive(Debug)]
pub struct WafResult {
    /// Whether the request may proceed.
    pub allowed: bool,
    /// Identifier of the matching rule, if any.
    pub triggered_rule: Option<String>,
    /// Category of the matching rule, if any.
    pub category: Option<String>,
    /// Wall-clock scan time in microseconds.
    pub scan_time_us: u64,
}

/// Whether matches deny (`Block`) or only report (`DetectOnly`).
#[derive(Debug, Clone, Copy, PartialEq, Eq, Structural)]
pub enum WafMode {
    /// Deny on match.
    Block,
    /// Report on match but allow.
    DetectOnly,
}

/// Rule severities.
#[derive(Debug, Clone, Copy, PartialEq, Eq, Structural)]
pub enum Severity {
    /// Informational.
    Low,
    /// Suspicious.
    Medium,
    /// Dangerous.
    High,
    /// Exploitation in progress.
    Critical,
}

/// A user-supplied pattern.
#[derive(Debug)]
pub struct CustomPattern {
    /// Rule identifier.
    pub id: String,
    /// The regex source.
    pub pattern: String,
    /// Category label.
    pub category: String,
    /// Severity of a match.
    pub severity: Severity,
}

/// WAF configuration.
#[derive(Debug)]
pub struct WafConfig {
    /// Whether scanning is on at all.
    pub enabled: bool,
    /// Deny or report.
    pub mode: WafMode,
    /// How many leading characters of a payload are scanned.
    pub max_body_size: usize,
    /// User-supplied patterns, compiled into a fifth group.
    pub custom_patterns: Vec<CustomPattern>,
}

impl WafConfig {
    /// The default configuration: enabled, blocking, scanning the first
    /// MiB, no custom patterns.
    pub fn default_config() -> (c: WafConfig)
        ensures
            c.enabled,
            c.mode is Block,
            c.max_body_size == 1024 * 1024,
            c.custom_patterns@.len() == 0,
    {
        WafConfig {
            enabled: true,
            mode: WafMode::Block,
            max_body_size: 1024 * 1024,
            custom_patterns: Vec::new(),
        }
    }
}

/// The built-in SQL injection patterns.
pub open spec fn spec_sql_patterns() -> Seq<Seq<char>> {
    seq![
        "(?i)(\\b(select|insert|update|delete|drop|union)\\b.*\\b(from|into|where|set)\\b)"@,
        "(?i)(--|#|/\\*|\\*/)"@,
        "(?i)(\\b(or|and)\\b\\s+\\d+\\s*=\\s*\\d+)"@,
        "(?i)(union\\s+(all\\s+)?select)"@,
    ]
}

/// The built-in cross-site scripting patterns.
pub open spec fn spec_xss_patterns() -> Seq<Seq<char>> {
    seq![
        "(?i)(<script)"@,
        "(?i)(javascript\\s*:)"@,
        "(?i)(on(load|error|click)\\s*=)"@,
        "(?i)(eval\\s*\\()"@,
    ]
}

/// The built-in path traversal patterns.
pub open spec fn spec_path_patterns() -> Seq<Seq<char>> {
    seq![
        "(\\.\\./|\\.\\.\\\\)"@,
        "(?i)(/etc/passwd)"@,
        "(?i)(%2e%2e%2f)"@,
    ]
}

/// The built-in command injection patterns.
pub open spec fn spec_cmd_patterns() -> Seq<Seq<char>> {
    seq![
        "(\\||;|\\$\\(|`)"@,
        "(?i)(\\b(cat|ls|whoami|id)\\b)"@,
        "(?i)(/bin/(sh|bash))"@,
    ]
}

/// What one scan of `content` reports: the first matching group in order,
/// as rule identifier and category, or nothing.
pub open spec fn spec_waf_hit(
    custom: Seq<Seq<char>>,
    custom_id: Seq<char>,
    custom_cat: Seq<char>,
    content: Seq<char>,
) -> Option<(Seq<char>, Seq<char>)> {
    if regex_set_matches(spec_sql_patterns(), content) {
        Some(("SQL-1"@, "SQL Injection"@))
    } else if regex_set_matches(spec_xss_patterns(), content) {
        Some(("XSS-1"@, "Cross-Site Scripting"@))
    } else if regex_set_matches(spec_path_patterns(), content) {
        Some(("PATH-1"@, "Path Traversal"@))
    } else if regex_set_matches(spec_cmd_patterns(), content) {
        Some(("CMD-1"@, "Command Injection"@))
    } else if custom.len() > 0 && regex_set_matches(custom, content) {
        Some((custom_id, custom_cat))
    } else {
        None
    }
}

/// The scanned prefix of a payload: at most `cap` leading characters.
pub open spec fn spec_scan_prefix(payload: Seq<char>, cap: int) -> Seq<char> {
    if payload.len() > cap {
        payload.subrange(0, cap)
    } else {
        payload
    }
}

/// The firewall, holding its compiled pattern groups.
pub struct WafEngine {
    /// The configuration the engine was built with.
    pub config: WafConfig,
    /// Compiled SQL injection group.
    pub sql_injection: regex::RegexSet,
    /// Compiled cross-site scripting group.
    pub xss: regex::RegexSet,
    /// Compiled path traversal group.
    pub path_traversal: regex::RegexSet,
    /// Compiled command injection group.
    pub command_injection: regex::RegexSet,
    /// Compiled user-supplied group, when patterns were given.
    pub custom: Option<regex::RegexSet>,
}

impl WafEngine {
    /// Engine well-formedness: each compiled group holds exactly its
    /// built-in patterns, and the custom group exactly the configured ones.
    pub open spec fn wf(&self) -> bool {
        &&& regex_set_patterns(self.sql_injection) == spec_sql_patterns()
        &&& regex_set_patterns(self.xss) == spec_xss_patterns()
        &&& regex_set_patterns(self.path_traversal) == spec_path_patterns()
        &&& regex_set_patterns(self.command_injection) == spec_cmd_patterns()
        &&& (match self.custom {
            Some(rs) => self.config.custom_patterns@.len() > 0
                && regex_set_patterns(rs) == self.config.custom_patterns@.map_values(
                    |p: CustomPattern| p.pattern@),
            None => self.config.custom_patterns@.len() == 0,
        })
    }

    /// The custom rule identifier reported on a custom match: the first
    /// configured pattern's.
    pub open spec fn spec_custom_id(&self) -> Seq<char> {
        if self.config.custom_patterns@.len() > 0 {
            self.config.custom_patterns@[0].id@
        } else {
            ""@
        }
    }

    /// The custom category reported on a custom match.
    pub open spec fn spec_custom_cat(&self) -> Seq<char> {
        if self.config.custom_patterns@.len() > 0 {
            self.config.custom_patterns@[0].category@
        } else {
            ""@
        }
    }

    /// The patterns of the custom group.
    pub open spec fn spec_custom_patterns(&self) -> Seq<Seq<char>> {
        self.config.custom_patterns@.map_values(|p: CustomPattern| p.pattern@)
    }

    /// Compile the engine. Compilation succeeds exactly when all built-in
    /// groups and the configured custom patterns are valid regexes; any
    /// failure is fatal at load time.
    #[verifier::loop_isolation(false)]
    pub fn new(config: WafConfig) -> (r: Result<WafEngine, WafError>)
        ensures
            r.is_ok() <==> (regex_patterns_ok(spec_sql_patterns())
                && regex_patterns_ok(spec_xss_patterns())
                && regex_patterns_ok(spec_path_patterns())
                && regex_patterns_ok(spec_cmd_patterns())
                && (config.custom_patterns@.len() > 0 ==> regex_patterns_ok(
                    config.custom_patterns@.map_values(|p: CustomPattern| p.pattern@)))),
            (match r {
                Ok(engine) => engine.wf() && engine.config.enabled == config.enabled
                    && engine.config.mode == config.mode
                    && engine.config.max_body_size == config.max_body_size
                    && engine.config.custom_patterns@ == config.custom_patterns@,
                Err(e) => e is PatternError,
            }),
    {
        let mut sql_patterns: Vec<String> = Vec::new();
        sql_patterns.push(
            "(?i)(\\b(select|insert|update|delete|drop|union)\\b.*\\b(from|into|where|set)\\b)"
                .to_owned());
        sql_patterns.push("(?i)(--|#|/\\*|\\*/)".to_owned());
        sql_patterns.push("(?i)(\\b(or|and)\\b\\s+\\d+\\s*=\\s*\\d+)".to_owned());
        sql_patterns.push("(?i)(union\\s+(all\\s+)?select)".to_owned());
        proof {
            assert(sql_patterns@.map_values(|p: String| p@) =~= spec_sql_patterns());
        }
        let mut xss_patterns: Vec<String> = Vec::new();
        xss_patterns.push("(?i)(<script)".to_owned());
        xss_patterns.push("(?i)(javascript\\s*:)".to_owned());
        xss_patterns.push("(?i)(on(load|error|click)\\s*=)".to_owned());
        xss_patterns.push("(?i)(eval\\s*\\()".to_owned());
        proof {
            assert(xss_patterns@.map_values(|p: String| p@) =~= spec_xss_patterns());
        }
        let mut path_patterns: Vec<String> = Vec::new();
        path_patterns.push("(\\.\\./|\\.\\.\\\\)".to_owned());
        path_patterns.push("(?i)(/etc/passwd)".to_owned());
        path_patterns.push("(?i)(%2e%2e%2f)".to_owned());
        proof {
            assert(path_patterns@.map_values(|p: String| p@) =~= spec_path_patterns());
        }
        let mut cmd_patterns: Vec<String> = Vec::new();
        cmd_patterns.push("(\\||;|\\$\\(|`)".to_owned());
        cmd_patterns.push("(?i)(\\b(cat|ls|whoami|id)\\b)".to_owned());
        cmd_patterns.push("(?i)(/bin/(sh|bash))".to_owned());
        proof {
            assert(cmd_patterns@.map_values(|p: String| p@) =~= spec_cmd_patterns());
        }
        let sql_injection = match regex_set_new(&sql_patterns) {
            Ok(rs) => rs,
            Err(e) => {
                return Err(WafError::PatternError(e));
            },
        };
        let xss = match regex_set_new(&xss_patterns) {
            Ok(rs) => rs,
            Err(e) => {
                return Err(WafError::PatternError(e));
            },
        };
        let path_traversal = match regex_set_new(&path_patterns) {
            Ok(rs) => rs,
            Err(e) => {
                return Err(WafError::PatternError(e));
            },
        };
        let command_injection = match regex_set_new(&cmd_patterns) {
            Ok(rs) => rs,
            Err(e) => {
                return Err(WafError::PatternError(e));
            },
        };
        let custom = if config.custom_patterns.len() > 0 {
            let mut patterns: Vec<String> = Vec::new();
            let mut i: usize = 0;
            while i < config.custom_patterns.len()
                invariant
                    i <= config.custom_patterns@.len(),
                    patterns@.len() == i,
                    forall|j: int| 0 <= j < i
                        ==> #[trigger] patterns@[j]@ == config.custom_patterns@[j].pattern@,
                decreases config.custom_patterns@.len() - i,
            {
                patterns.push(config.custom_patterns[i].pattern.clone());
                i += 1;
            }
            proof {
                assert(patterns@.map_values(|p: String| p@)
                    =~= config.custom_patterns@.map_values(|p: CustomPattern| p.pattern@));
            }
            match regex_set_new(&patterns) {
                Ok(rs) => Some(rs),
                Err(e) => {
                    return Err(WafError::PatternError(e));
                },
            }
        } else {
            None
        };
        Ok(WafEngine { config, sql_injection, xss, path_traversal, command_injection, custom })
    }

    /// Scan a payload. A disabled engine allows everything; otherwise the
    /// size-capped prefix is scanned against the groups in order, the first
    /// match names the rule and category, and `Block` mode denies on a
    /// match.
    pub fn scan(&self, payload: &str) -> (r: WafResult)
        requires
            self.wf(),
        ensures
            !self.config.enabled ==> r.allowed && r.triggered_rule is None
                && r.category is None,
            self.config.enabled ==> {
                let hit = spec_waf_hit(self.spec_custom_patterns(), self.spec_custom_id(),
                    self.spec_custom_cat(),
                    spec_scan_prefix(payload@, self.config.max_body_size as int));
                match hit {
                    Some(rc) => {
                        &&& r.allowed == (self.config.mode is DetectOnly)
                        &&& (match r.triggered_rule {
                            Some(ref id) => id@ == rc.0,
                            None => false,
                        })
                        &&& (match r.category {
                            Some(ref cat) => cat@ == rc.1,
                            None => false,
                        })
                    },
                    None => r.allowed && r.triggered_rule is None && r.category is None,
                }
            },
    {
        if !self.config.enabled {
            return WafResult {
                allowed: true,
                triggered_rule: None,
                category: None,
                scan_time_us: 0,
            };
        }
        let started = crate::clock::now_epoch_us();
        let n = payload.unicode_len();
        let content: &str = if n > self.config.max_body_size {
            payload.substring_char(0, self.config.max_body_size)
        } else {
            payload
        };
        let hit: Option<(String, String)> = self.check_patterns(content);
        let finished = crate::clock::now_epoch_us();
        let scan_time_us = if finished >= started {
            finished - started
        } else {
            0
        };
        match hit {
            Some((rule_id, category)) => WafResult {
                allowed: match self.config.mode {
                    WafMode::DetectOnly => true,
                    WafMode::Block => false,
                },
                triggered_rule: Some(rule_id),
                category: Some(category),
                scan_time_us,
            },
            None => WafResult {
                allowed: true,
                triggered_rule: None,
                category: None,
                scan_time_us,
            },
        }
    }

    /// Scan the groups in order; the first matching group names the rule.
    fn check_patterns(&self, content: &str) -> (r: Option<(String, String)>)
        requires
            self.wf(),
        ensures
            (match r {
                Some(rc) => spec_waf_hit(self.spec_custom_patterns(), self.spec_custom_id(),
                    self.spec_custom_cat(), content@) == Some((rc.0@, rc.1@)),
                None => spec_waf_hit(self.spec_custom_patterns(), self.spec_custom_id(),
                    self.spec_custom_cat(), content@) is None,
            }),
    {
        if regex_set_is_match(&self.sql_injection, content) {
            return Some(("SQL-1".to_owned(), "SQL Injection".to_owned()));
        }
        if regex_set_is_match(&self.xss, content) {
            return Some(("XSS-1".to_owned(), "Cross-Site Scripting".to_owned()));
        }
        if regex_set_is_match(&self.path_traversal, content) {
            return Some(("PATH-1".to_owned(), "Path Traversal".to_owned()));
        }
        if regex_set_is_match(&self.command_injection, content) {
            return Some(("CMD-1".to_owned(), "Command Injection".to_owned()));
        }
        match self.custom {
            Some(ref custom) => {
                if regex_set_is_match(custom, content) {
                    let first = &self.config.custom_patterns[0];
                    return Some((first.id.clone(), first.category.clone()));
                }
            },
            None => {},
        }
        None
    }

    /// Scan a URL path: exactly the scan the body receives, applied to the
    /// path text.
    pub fn scan_path(&self, path: &str) -> (r: WafResult)
        requires
            self.wf(),
        ensures
            !self.config.enabled ==> r.allowed && r.triggered_rule is None
                && r.category is None,
            self.config.enabled ==> {
                let hit = spec_waf_hit(self.spec_custom_patterns(), self.spec_custom_id(),
                    self.spec_custom_cat(),
                    spec_scan_prefix(path@, self.config.max_body_size as int));
                match hit {
                    Some(rc) => {
                        &&& r.allowed == (self.config.mode is DetectOnly)
                        &&& (match r.triggered_rule {
                            Some(ref id) => id@ == rc.0,
                            None => false,
                        })
                        &&& (match r.category {
                            Some(ref cat) => cat@ == rc.1,
                            None => false,
                        })
                    },
                    None => r.allowed && r.triggered_rule is None && r.category is None,
                }
            },
    {
        self.scan(path)
    }

    /// Scan a query string: exactly the scan the body receives, applied to
    /// the query text.
    pub fn scan_query(&self, query: &str) -> (r: WafResult)
        requires
            self.wf(),
        ensures
            !self.config.enabled ==> r.allowed && r.triggered_rule is None
                && r.category is None,
            self.config.enabled ==> {
                let hit = spec_waf_hit(self.spec_custom_patterns(), self.spec_custom_id(),
                    self.spec_custom_cat(),
                    spec_scan_prefix(query@, self.config.max_body_size as int));
                match hit {
                    Some(rc) => {
                        &&& r.allowed == (self.config.mode is DetectOnly)
                        &&& (match r.triggered_rule {
                            Some(ref id) => id@ == rc.0,
                            None => false,
                        })
                        &&& (match r.category {
                            Some(ref cat) => cat@ == rc.1,
                            None => false,
                        })
                    },
                    None => r.allowed && r.triggered_rule is None && r.category is None,
                }
            },
    {
        self.scan(query)
    }
}

} // verus!
