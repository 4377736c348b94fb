use vstd::prelude::*;
use vstd::string::*;

use crate::state::names_view;

verus! {

/// The names of the grok patterns that classify a log line, in the order they
/// are tried.
pub open spec fn grok_pattern_names() -> Seq<Seq<char>> {
    seq![
        "HTTPD_COMBINEDLOG"@,
        "HTTPD_COMMONLOG"@,
        "HTTPD_ERRORLOG"@,
        "SYSLOG5424LINE"@,
        "SYSLOGLINE"@,
        "SYSLOGPAMSESSION"@,
        "CRONLOG"@,
        "MONGO3_LOG"@,
        "NAGIOSLOGLINE"@,
        "POSTGRESQL"@,
        "RAILS3"@,
        "REDISLOG"@,
        "S3_ACCESS_LOG"@,
        "ELB_ACCESS_LOG"@,
        "CLOUDFRONT_ACCESS_LOG"@,
        "CATALINALOG"@,
        "TOMCATLOG"@,
        "REDISMONLOG"@,
        "RUBY_LOGGER"@,
        "SQUID3"@,
        "BIND9"@,
        "HAPROXYTCP"@,
        "HAPROXYHTTP"@,
        "BACULA_LOGLINE"@,
        "BRO_HTTP"@,
        "BRO_DNS"@,
        "BRO_CONN"@,
        "BRO_FILES"@,
        "NETSCREENSESSIONLOG"@,
        "CISCO_TAGGED_SYSLOG"@,
        "CISCOFW104001"@,
        "CISCOFW104002"@,
        "CISCOFW104003"@,
        "CISCOFW104004"@,
        "CISCOFW105003"@,
        "CISCOFW105004"@,
        "CISCOFW105005"@,
        "CISCOFW105008"@,
        "CISCOFW105009"@,
        "CISCOFW106001"@,
        "CISCOFW106006_106007_106010"@,
        "CISCOFW106014"@,
        "CISCOFW106015"@,
        "CISCOFW106021"@,
        "CISCOFW106023"@,
        "CISCOFW106100_2_3"@,
        "CISCOFW106100"@,
        "CISCOFW304001"@,
        "CISCOFW110002"@,
        "CISCOFW302010"@,
        "CISCOFW302013_302014_302015_302016"@,
        "CISCOFW302020_302021"@,
        "CISCOFW305011"@,
        "CISCOFW313001_313004_313008"@,
        "CISCOFW313005"@,
        "CISCOFW321001"@,
        "CISCOFW402117"@,
        "CISCOFW402119"@,
        "CISCOFW419001"@,
        "CISCOFW419002"@,
        "CISCOFW500004"@,
        "CISCOFW602303_602304"@,
        "CISCOFW710001_710002_710003_710005_710006"@,
        "CISCOFW713172"@,
        "CISCOFW733100"@,
        "SHOREWALL"@,
        "SFW2"@
    ]
}

/// The grok patterns tried where none are configured.
pub fn default_grok_patterns() -> (r: Vec<String>)
    ensures
        names_view(r@) == grok_pattern_names(),
{
    let mut r: Vec<String> = Vec::new();
    r.push(String::from_str("HTTPD_COMBINEDLOG"));
    r.push(String::from_str("HTTPD_COMMONLOG"));
    r.push(String::from_str("HTTPD_ERRORLOG"));
    r.push(String::from_str("SYSLOG5424LINE"));
    r.push(String::from_str("SYSLOGLINE"));
    r.push(String::from_str("SYSLOGPAMSESSION"));
    r.push(String::from_str("CRONLOG"));
    r.push(String::from_str("MONGO3_LOG"));
    r.push(String::from_str("NAGIOSLOGLINE"));
    r.push(String::from_str("POSTGRESQL"));
    r.push(String::from_str("RAILS3"));
    r.push(String::from_str("REDISLOG"));
    r.push(String::from_str("S3_ACCESS_LOG"));
    r.push(String::from_str("ELB_ACCESS_LOG"));
    r.push(String::from_str("CLOUDFRONT_ACCESS_LOG"));
    r.push(String::from_str("CATALINALOG"));
    r.push(String::from_str("TOMCATLOG"));
    r.push(String::from_str("REDISMONLOG"));
    r.push(String::from_str("RUBY_LOGGER"));
    r.push(String::from_str("SQUID3"));
    r.push(String::from_str("BIND9"));
    r.push(String::from_str("HAPROXYTCP"));
    r.push(String::from_str("HAPROXYHTTP"));
    r.push(String::from_str("BACULA_LOGLINE"));
    r.push(String::from_str("BRO_HTTP"));
    r.push(String::from_str("BRO_DNS"));
    r.push(String::from_str("BRO_CONN"));
    r.push(String::from_str("BRO_FILES"));
    r.push(String::from_str("NETSCREENSESSIONLOG"));
    r.push(String::from_str("CISCO_TAGGED_SYSLOG"));
    r.push(String::from_str("CISCOFW104001"));
    r.push(String::from_str("CISCOFW104002"));
    r.push(String::from_str("CISCOFW104003"));
    r.push(String::from_str("CISCOFW104004"));
    r.push(String::from_str("CISCOFW105003"));
    r.push(String::from_str("CISCOFW105004"));
    r.push(String::from_str("CISCOFW105005"));
    r.push(String::from_str("CISCOFW105008"));
    r.push(String::from_str("CISCOFW105009"));
    r.push(String::from_str("CISCOFW106001"));
    r.push(String::from_str("CISCOFW106006_106007_106010"));
    r.push(String::from_str("CISCOFW106014"));
    r.push(String::from_str("CISCOFW106015"));
    r.push(String::from_str("CISCOFW106021"));
    r.push(String::from_str("CISCOFW106023"));
    r.push(String::from_str("CISCOFW106100_2_3"));
    r.push(String::from_str("CISCOFW106100"));
    r.push(String::from_str("CISCOFW304001"));
    r.push(String::from_str("CISCOFW110002"));
    r.push(String::from_str("CISCOFW302010"));
    r.push(String::from_str("CISCOFW302013_302014_302015_302016"));
    r.push(String::from_str("CISCOFW302020_302021"));
    r.push(String::from_str("CISCOFW305011"));
    r.push(String::from_str("CISCOFW313001_313004_313008"));
    r.push(String::from_str("CISCOFW313005"));
    r.push(String::from_str("CISCOFW321001"));
    r.push(String::from_str("CISCOFW402117"));
    r.push(String::from_str("CISCOFW402119"));
    r.push(String::from_str("CISCOFW419001"));
    r.push(String::from_str("CISCOFW419002"));
    r.push(String::from_str("CISCOFW500004"));
    r.push(String::from_str("CISCOFW602303_602304"));
    r.push(String::from_str("CISCOFW710001_710002_710003_710005_710006"));
    r.push(String::from_str("CISCOFW713172"));
    r.push(String::from_str("CISCOFW733100"));
    r.push(String::from_str("SHOREWALL"));
    r.push(String::from_str("SFW2"));
    assert(names_view(r@) =~= grok_pattern_names());
    r
}

/// Configuration of the log classification transform.
#[derive(Debug)]
pub struct LogClassificationConfig {
    /// Fields of an object message to look for a log line in, in order.
    pub line_fields: Option<Vec<String>>,
    /// Names of the grok patterns to match, in order.
    pub grok_patterns: Vec<String>,
}

impl Default for LogClassificationConfig {
    fn default() -> (r: LogClassificationConfig)
        ensures
            r.line_fields is None,
            r.grok_patterns@.len() == 0,
    {
        LogClassificationConfig { line_fields: None, grok_patterns: Vec::new() }
    }
}

/// The log classification transform: the patterns it tries and the fields it
/// looks in.
#[derive(Debug)]
pub struct LogClassification {
    pub patterns: Vec<String>,
    pub line_fields: Vec<String>,
}

fn copy_names(s: &Vec<String>) -> (r: Vec<String>)
    ensures
        names_view(r@) == names_view(s@),
{
    let mut r: Vec<String> = Vec::new();
    let mut i: usize = 0;
    while i < s.len()
        invariant
            i <= s.len(),
            r.len() == i,
            forall|j: int| 0 <= j < i ==> #[trigger] r@[j]@ == s@[j]@,
        decreases s.len() - i,
    {
        r.push(s[i].clone());
        i += 1;
    }
    assert(names_view(r@) =~= names_view(s@));
    r
}

impl LogClassification {
    /// The transform for a configuration: its patterns, and its line fields (none
    /// where none are configured).
    pub fn new(config: &LogClassificationConfig) -> (r: LogClassification)
        ensures
            names_view(r.patterns@) == names_view(config.grok_patterns@),
            names_view(r.line_fields@) == match config.line_fields {
                Some(f) => names_view(f@),
                None => Seq::empty(),
            },
    {
        let line_fields = match &config.line_fields {
            Some(f) => copy_names(f),
            None => {
                let v: Vec<String> = Vec::new();
                assert(names_view(v@) =~= Seq::<Seq<char>>::empty());
                v
            },
        };
        LogClassification { patterns: copy_names(&config.grok_patterns), line_fields }
    }
}

} // verus!
