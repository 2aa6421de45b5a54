//! How spk names the metrics it sends to statsd: the plain statsd format,
//! or the librato tagging format of statsd-exporter, which carries the spk
//! command, the spk version and any extra labels.

use vstd::prelude::*;
use vstd::string::StringExecFns;
use crate::text::{join, join_strings, push_text, texts};

verus! {

/// Supported metrics naming formats
#[derive(Clone, Copy, Debug, PartialEq, Eq, Structural)]
pub enum StatsdFormat {
    Statsd,
    Librato,
}

/// The config value of each format.
pub open spec fn format_value(f: StatsdFormat) -> Seq<char> {
    match f {
        StatsdFormat::Statsd => "statsd"@,
        StatsdFormat::Librato => "statsd-exporter-librato"@,
    }
}

/// The format a config value names, if any.
pub open spec fn format_named(input: Seq<char>) -> Option<StatsdFormat> {
    if input == "statsd"@ {
        Some(StatsdFormat::Statsd)
    } else if input == "statsd-exporter-librato"@ {
        Some(StatsdFormat::Librato)
    } else {
        None
    }
}

/// Reading back the config value of a format gives that format.
pub proof fn lemma_format_round_trip(f: StatsdFormat)
    ensures
        format_named(format_value(f)) == Some(f),
{
    reveal_strlit("statsd");
    reveal_strlit("statsd-exporter-librato");
    assert("statsd"@.len() != "statsd-exporter-librato"@.len());
}

/// The message for a config value that names no format.
pub open spec fn unsupported_format_message(input: Seq<char>) -> Seq<char> {
    "Unsupported statsd metric format: "@ + input
        + ". Please specify SPK_STATSD_FORMAT as one of: statsd, statsd-exporter-librato"@
}

impl StatsdFormat {
    /// The format a config value names; any other value is an error.
    pub fn from_str(input: &str) -> (r: Result<StatsdFormat, crate::error::Error>)
        ensures
            input@ == "statsd"@ ==> r == Ok::<StatsdFormat, crate::error::Error>(StatsdFormat::Statsd),
            input@ == "statsd-exporter-librato"@ ==> r == Ok::<StatsdFormat, crate::error::Error>(
                StatsdFormat::Librato,
            ),
            input@ != "statsd"@ && input@ != "statsd-exporter-librato"@ ==> (r matches Err(
                crate::error::Error::String(m),
            ) && m@ == unsupported_format_message(input@)),
            r is Ok <==> format_named(input@) is Some,
            r matches Ok(f) ==> format_named(input@) == Some(f),
    {
        proof {
            reveal_strlit("statsd");
            reveal_strlit("statsd-exporter-librato");
            assert("statsd"@.len() != "statsd-exporter-librato"@.len());
        }
        let s = String::from_str(input);
        let statsd = String::from_str("statsd");
        let librato = String::from_str("statsd-exporter-librato");
        if s == statsd {
            Ok(StatsdFormat::Statsd)
        } else if s == librato {
            Ok(StatsdFormat::Librato)
        } else {
            let mut m = String::new();
            push_text(&mut m, "Unsupported statsd metric format: ");
            push_text(&mut m, input);
            push_text(&mut m, ". Please specify SPK_STATSD_FORMAT as one of: ");
            push_text(&mut m, "statsd");
            push_text(&mut m, ", ");
            push_text(&mut m, "statsd-exporter-librato");
            proof {
                reveal_strlit(". Please specify SPK_STATSD_FORMAT as one of: ");
                reveal_strlit("statsd");
                reveal_strlit(", ");
                reveal_strlit("statsd-exporter-librato");
                reveal_strlit(". Please specify SPK_STATSD_FORMAT as one of: statsd, statsd-exporter-librato");
                assert(m@ =~= unsupported_format_message(input@));
            }
            Err(crate::error::Error::String(m))
        }
    }

    /// The config value of the format.
    pub fn to_text(&self) -> (r: String)
        ensures
            r@ == format_value(*self),
    {
        match self {
            StatsdFormat::Statsd => String::from_str("statsd"),
            StatsdFormat::Librato => String::from_str("statsd-exporter-librato"),
        }
    }
}

/// How spk names its metrics: the spk command being run, the spk version
/// and the naming format.
#[derive(Debug)]
pub struct MetricsClient {
    pub command: String,
    pub version: String,
    pub statsd_format: StatsdFormat,
}

/// The labels of a metric in the librato format: the command, the version,
/// then the extra labels.
pub open spec fn metric_labels(command: Seq<char>, version: Seq<char>, extra: Seq<Seq<char>>) -> Seq<Seq<char>> {
    seq!["command="@ + command, "version="@ + version] + extra
}

/// The name of a metric: the base name in the plain format; in the librato
/// format the base name, `#`, and the labels joined with commas.
pub open spec fn metric_name(
    format: StatsdFormat,
    command: Seq<char>,
    version: Seq<char>,
    base: Seq<char>,
    extra: Option<Seq<Seq<char>>>,
) -> Seq<char> {
    match format {
        StatsdFormat::Statsd => base,
        StatsdFormat::Librato => base + "#"@ + join(
            metric_labels(
                command,
                version,
                match extra {
                    Some(l) => l,
                    None => Seq::empty(),
                },
            ),
            ","@,
        ),
    }
}

impl MetricsClient {
    pub fn new(command: String, version: String, statsd_format: StatsdFormat) -> (r: Self)
        ensures
            r.command == command,
            r.version == version,
            r.statsd_format == statsd_format,
    {
        MetricsClient { command, version, statsd_format }
    }

    /// Return the appropriate statsd metric name for the given
    /// name. This will automatically add the default labels and
    /// values (command, version) and any extra labels it is given.
    pub fn format_metric_name(&self, base_name: &str, labels: Option<&Vec<String>>) -> (r: String)
        ensures
            r@ == metric_name(
                self.statsd_format,
                self.command@,
                self.version@,
                base_name@,
                match labels {
                    Some(l) => Some(texts(l@)),
                    None => None,
                },
            ),
    {
        match self.statsd_format {
            StatsdFormat::Statsd => String::from_str(base_name),
            StatsdFormat::Librato => {
                let mut all: Vec<String> = Vec::new();
                let mut c = String::new();
                push_text(&mut c, "command=");
                push_text(&mut c, self.command.as_str());
                all.push(c);
                let mut v = String::new();
                push_text(&mut v, "version=");
                push_text(&mut v, self.version.as_str());
                all.push(v);
                let ghost head = texts(all@);
                let ghost extra: Seq<Seq<char>> = match labels {
                    Some(l) => texts(l@),
                    None => Seq::empty(),
                };
                match labels {
                    Some(l) => {
                        let mut i: usize = 0;
                        while i < l.len()
                            invariant
                                0 <= i <= l@.len(),
                                extra == texts(l@),
                                texts(all@) == head + extra.take(i as int),
                            decreases l@.len() - i,
                        {
                            let ghost before = all@;
                            all.push(l[i].clone());
                            proof {
                                assert(texts(all@) =~= texts(before).push(l@[i as int]@));
                                assert(extra.take(i + 1) =~= extra.take(i as int).push(l@[i as int]@));
                                assert(texts(all@) =~= head + extra.take(i + 1));
                            }
                            i = i + 1;
                        }
                        proof {
                            assert(extra.take(l@.len() as int) =~= extra);
                        }
                    },
                    None => {
                        proof {
                            assert(texts(all@) =~= head + extra);
                        }
                    },
                }
                proof {
                    assert(head =~= seq!["command="@ + self.command@, "version="@ + self.version@]);
                }
                let joined = join_strings(&all, ",");
                let mut r = String::from_str(base_name);
                push_text(&mut r, "#");
                push_text(&mut r, joined.as_str());
                r
            },
        }
    }
}

/// Whether a text ends with another.
pub open spec fn ends_with(s: Seq<char>, suffix: Seq<char>) -> bool {
    s.len() >= suffix.len() && s.subrange(s.len() - suffix.len(), s.len() as int) == suffix
}

/// The labels of the count of a package of a solution: its name, version
/// and build.
pub fn solution_package_labels(name: &String, version: &String, build: &String) -> (r: Vec<String>)
    ensures
        texts(r@) == seq!["package="@ + name@, "version="@ + version@, "build="@ + build@],
{
    let mut p = String::new();
    push_text(&mut p, "package=");
    push_text(&mut p, name.as_str());
    let mut v = String::new();
    push_text(&mut v, "version=");
    push_text(&mut v, version.as_str());
    let mut b = String::new();
    push_text(&mut b, "build=");
    push_text(&mut b, build.as_str());
    let r = vec![p, v, b];
    assert(texts(r@) =~= seq!["package="@ + name@, "version="@ + version@, "build="@ + build@]);
    r
}

/// The spk command a program was run for: the first argument when the
/// program is spk, nothing otherwise.
pub fn metrics_command(args: &Vec<String>) -> (r: String)
    requires
        args@.len() >= 1,
        ends_with(args@[0]@, "spk"@) ==> args@.len() >= 2,
    ensures
        ends_with(args@[0]@, "spk"@) ==> r@ == args@[1]@,
        !ends_with(args@[0]@, "spk"@) ==> r@ == Seq::<char>::empty(),
{
    let program = args[0].as_str();
    let n = program.unicode_len();
    proof {
        reveal_strlit("spk");
    }
    let is_spk = n >= 3 && program.get_char(n - 3) == 's' && program.get_char(n - 2) == 'p' && program.get_char(
        n - 1,
    ) == 'k';
    proof {
        let s = args@[0]@;
        if is_spk {
            assert(s.subrange(s.len() - 3, s.len() as int) =~= "spk"@);
        }
        if ends_with(s, "spk"@) {
            assert(s.subrange(s.len() - 3, s.len() as int)[0] == s[s.len() - 3]);
            assert(s.subrange(s.len() - 3, s.len() as int)[1] == s[s.len() - 2]);
            assert(s.subrange(s.len() - 3, s.len() as int)[2] == s[s.len() - 1]);
        }
    }
    if is_spk {
        args[1].clone()
    } else {
        String::new()
    }
}

} // verus!
