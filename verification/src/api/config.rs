//! The configuration file of a `LanguageTool` server: a Java property file
//! with one `key=value` entry per line.

use vstd::prelude::*;
use vstd::string::StringExecFns;

verus! {

/// A Java property file (one `key = value` entry per line) with values listed
/// below.
#[derive(Clone, Debug, PartialEq, Eq)]
pub struct ConfigFile {
    /// Maximum text length, longer texts will cause an error (optional).
    pub max_text_length: Option<isize>,
    /// Maximum text length, applies even to users with a special secret 'token'
    /// parameter (optional).
    pub max_text_hard_length: Option<isize>,
    /// Secret JWT token key, if set by user and valid, maxTextLength can be
    /// increased by the user (optional).
    pub secret_token_key: Option<isize>,
    /// Maximum time in milliseconds allowed per check (optional).
    pub max_check_time_millis: Option<isize>,
    /// Checking will stop with error if there are more rules matches per word
    /// (optional).
    pub max_errors_per_word_rate: Option<isize>,
    /// Only this many spelling errors will have suggestions for performance
    /// reasons (optional, affects Hunspell-based languages only).
    pub max_spelling_suggestions: Option<isize>,
    /// Maximum number of threads working in parallel (optional).
    pub max_check_threads: Option<isize>,
    /// Size of internal cache in number of sentences (optional, default: 0).
    pub cache_size: Option<isize>,
    /// How many seconds sentences are kept in cache (optional, default: 300 if
    /// 'cacheSize' is set).
    pub cache_ttl_seconds: Option<isize>,
    /// Maximum number of requests per requestLimitPeriodInSeconds (optional).
    pub request_limit: Option<isize>,
    /// Maximum aggregated size of requests per requestLimitPeriodInSeconds
    /// (optional).
    pub request_limit_in_bytes: Option<isize>,
    /// Maximum number of timeout request (optional).
    pub timeout_request_limit: Option<isize>,
    /// Time period to which requestLimit and timeoutRequestLimit applies
    /// (optional).
    pub request_limit_period_in_seconds: Option<isize>,
    /// A directory with '1grams', '2grams', '3grams' sub directories which
    /// contain a Lucene index each with ngram occurrence counts; activates the
    /// confusion rule if supported (optional).
    pub language_model: Option<String>,
    /// A directory with word2vec data (optional).
    pub word2vec_model: Option<String>,
    /// A model file for better language detection (optional).
    pub fasttext_model: Option<String>,
    /// Compiled fasttext executable for language detection (optional).
    pub fasttext_binary: Option<String>,
    /// Reject request if request queue gets larger than this (optional).
    pub max_work_queue_size: Option<isize>,
    /// A file containing rules configuration, such as .langugagetool.cfg
    /// (optional).
    pub rules_file: Option<String>,
    /// Set to 'true' to warm up server at start, i.e. run a short check with
    /// all languages (optional).
    pub warm_up: Option<bool>,
    /// A list of HTTP referrers (and 'Origin' headers) that are blocked and
    /// will not be served (optional).
    pub blocked_referrers: Option<Vec<String>>,
    /// Activate only the premium rules (optional).
    pub premium_only: Option<bool>,
    /// A list of rule ids that are turned off for this server (optional).
    pub disable_rule_ids: Option<Vec<String>>,
    /// Set to 'true' to enable caching of internal pipelines to improve
    /// performance.
    pub pipeline_caching: Option<bool>,
    /// Cache size if 'pipelineCaching' is set.
    pub max_pipeline_pool_size: Option<isize>,
    /// Time after which pipeline cache items expire.
    pub pipeline_expire_time_in_seconds: Option<isize>,
    /// Set to 'true' to fill pipeline cache on start (can slow down start a
    /// lot).
    pub pipeline_prewarming: Option<bool>,
    /// Spellcheck-only languages: pairs of a property, `lang-xx` or
    /// `lang-xx-dictPath`, and its value.
    pub spellcheck_only: Option<Vec<(String, String)>>,
}

impl Default for ConfigFile {
    fn default() -> (config: Self)
        ensures
            config.cache_size == Some(0isize),
            config.cache_ttl_seconds == Some(300isize),
            config == (ConfigFile {
                cache_size: config.cache_size,
                cache_ttl_seconds: config.cache_ttl_seconds,
                ..ConfigFile::unset()
            }),
    {
        Self {
            max_text_length: None,
            max_text_hard_length: None,
            secret_token_key: None,
            max_check_time_millis: None,
            max_errors_per_word_rate: None,
            max_spelling_suggestions: None,
            max_check_threads: None,
            cache_size: Some(0),
            cache_ttl_seconds: Some(300),
            request_limit: None,
            request_limit_in_bytes: None,
            timeout_request_limit: None,
            request_limit_period_in_seconds: None,
            language_model: None,
            word2vec_model: None,
            fasttext_model: None,
            fasttext_binary: None,
            max_work_queue_size: None,
            rules_file: None,
            warm_up: None,
            blocked_referrers: None,
            premium_only: None,
            disable_rule_ids: None,
            pipeline_caching: None,
            max_pipeline_pool_size: None,
            pipeline_expire_time_in_seconds: None,
            pipeline_prewarming: None,
            spellcheck_only: None,
        }
    }
}

impl ConfigFile {
    /// The configuration in which nothing is set.
    pub open spec fn unset() -> ConfigFile {
        ConfigFile {
            max_text_length: None,
            max_text_hard_length: None,
            secret_token_key: None,
            max_check_time_millis: None,
            max_errors_per_word_rate: None,
            max_spelling_suggestions: None,
            max_check_threads: None,
            cache_size: None,
            cache_ttl_seconds: None,
            request_limit: None,
            request_limit_in_bytes: None,
            timeout_request_limit: None,
            request_limit_period_in_seconds: None,
            language_model: None,
            word2vec_model: None,
            fasttext_model: None,
            fasttext_binary: None,
            max_work_queue_size: None,
            rules_file: None,
            warm_up: None,
            blocked_referrers: None,
            premium_only: None,
            disable_rule_ids: None,
            pipeline_caching: None,
            max_pipeline_pool_size: None,
            pipeline_expire_time_in_seconds: None,
            pipeline_prewarming: None,
            spellcheck_only: None,
        }
    }
}

/// The value of one entry of a configuration, as it was serialized: numbers
/// and nested values come as the text that stands for them.
#[derive(Clone, Debug, PartialEq, Eq)]
pub enum ConfigValue {
    /// No value.
    Null,
    /// A truth value.
    Bool(bool),
    /// A number, in the notation in which it is written.
    Number(String),
    /// A text.
    Text(String),
    /// A list; each item in the notation in which it is written.
    List(Vec<String>),
    /// A table of keys and values; each value in the notation in which it is
    /// written.
    Table(Vec<(String, String)>),
}

/// The texts `items` with commas between them.
pub open spec fn comma_list(items: Seq<String>) -> Seq<char>
    decreases items.len(),
{
    if items.len() == 0 {
        Seq::empty()
    } else if items.len() == 1 {
        items[0]@
    } else {
        comma_list(items.drop_last()) + ","@ + items.last()@
    }
}

/// The lines `key="value"` for the entries of a table.
pub open spec fn table_lines(entries: Seq<(String, String)>) -> Seq<char>
    decreases entries.len(),
{
    if entries.len() == 0 {
        Seq::empty()
    } else {
        table_lines(entries.drop_last()) + entries.last().0@ + "=\""@ + entries.last().1@
            + "\"\n"@
    }
}

/// The lines of a property file for one entry: `key=value` for a truth
/// value or a number, `key="value"` for a text or a list, a comment for a
/// missing value, and for a table one line for each of its own entries.
pub open spec fn entry_lines(key: Seq<char>, value: ConfigValue) -> Seq<char> {
    match value {
        ConfigValue::Null => "# "@ + key + "=\n"@,
        ConfigValue::Bool(b) => key + "="@ + (if b {
            "true"@
        } else {
            "false"@
        }) + "\n"@,
        ConfigValue::Number(n) => key + "="@ + n@ + "\n"@,
        ConfigValue::Text(s) => key + "=\""@ + s@ + "\"\n"@,
        ConfigValue::List(items) => key + "=\""@ + comma_list(items@) + "\"\n"@,
        ConfigValue::Table(entries) => table_lines(entries@),
    }
}

/// The property file for the entries `entries`, in their order.
pub open spec fn property_lines(entries: Seq<(String, ConfigValue)>) -> Seq<char>
    decreases entries.len(),
{
    if entries.len() == 0 {
        Seq::empty()
    } else {
        property_lines(entries.drop_last()) + entry_lines(entries.last().0@, entries.last().1)
    }
}

/// Writes the lines of a property file for one entry to the end of `out`.
fn write_entry(out: &mut String, key: &str, value: &ConfigValue)
    ensures
        final(out)@ == old(out)@ + entry_lines(key@, *value),
{
    let ghost before = out@;
    match value {
        ConfigValue::Null => {
            out.append("# ");
            out.append(key);
            out.append("=\n");
            proof {
                assert(out@ =~= before + ("# "@ + key@ + "=\n"@));
            }
        },
        ConfigValue::Bool(b) => {
            out.append(key);
            out.append("=");
            if *b {
                out.append("true");
            } else {
                out.append("false");
            }
            out.append("\n");
            proof {
                assert(out@ =~= before + entry_lines(key@, *value));
            }
        },
        ConfigValue::Number(n) => {
            out.append(key);
            out.append("=");
            out.append(n.as_str());
            out.append("\n");
            proof {
                assert(out@ =~= before + (key@ + "="@ + n@ + "\n"@));
            }
        },
        ConfigValue::Text(s) => {
            out.append(key);
            out.append("=\"");
            out.append(s.as_str());
            out.append("\"\n");
            proof {
                assert(out@ =~= before + (key@ + "=\""@ + s@ + "\"\n"@));
            }
        },
        ConfigValue::List(items) => {
            out.append(key);
            out.append("=\"");
            let ghost open = out@;
            let mut i: usize = 0;
            while i < items.len()
                invariant
                    i <= items.len(),
                    out@ == open + comma_list(items@.take(i as int)),
                decreases items.len() - i,
            {
                proof {
                    assert(items@.take(i + 1).drop_last() =~= items@.take(i as int));
                    assert(items@.take(i + 1).last() == items@[i as int]);
                }
                let ghost so_far = out@;
                if i > 0 {
                    out.append(",");
                }
                out.append(items[i].as_str());
                proof {
                    assert(out@ =~= open + comma_list(items@.take(i + 1)));
                }
                i += 1;
            }
            proof {
                assert(items@.take(i as int) =~= items@);
            }
            out.append("\"\n");
            proof {
                assert(out@ =~= before + (key@ + "=\""@ + comma_list(items@) + "\"\n"@));
            }
        },
        ConfigValue::Table(entries) => {
            let mut i: usize = 0;
            proof {
                assert(out@ =~= before + table_lines(entries@.take(0)));
            }
            while i < entries.len()
                invariant
                    i <= entries.len(),
                    out@ == before + table_lines(entries@.take(i as int)),
                decreases entries.len() - i,
            {
                proof {
                    assert(entries@.take(i + 1).drop_last() =~= entries@.take(i as int));
                    assert(entries@.take(i + 1).last() == entries@[i as int]);
                }
                out.append(entries[i].0.as_str());
                out.append("=\"");
                out.append(entries[i].1.as_str());
                out.append("\"\n");
                proof {
                    assert(out@ =~= before + table_lines(entries@.take(i + 1)));
                }
                i += 1;
            }
            proof {
                assert(entries@.take(i as int) =~= entries@);
            }
        },
    }
}

/// Write the entries of a configuration in the `key = value` format of a
/// property file.
pub fn write_properties(entries: &Vec<(String, ConfigValue)>) -> (out: String)
    ensures
        out@ == property_lines(entries@),
{
    let mut out = String::new();
    let mut i: usize = 0;
    while i < entries.len()
        invariant
            i <= entries.len(),
            out@ == property_lines(entries@.take(i as int)),
        decreases entries.len() - i,
    {
        proof {
            assert(entries@.take(i + 1).drop_last() =~= entries@.take(i as int));
            assert(entries@.take(i + 1).last() == entries@[i as int]);
        }
        write_entry(&mut out, entries[i].0.as_str(), &entries[i].1);
        i += 1;
    }
    proof {
        assert(entries@.take(i as int) =~= entries@);
    }
    out
}

} // verus!
