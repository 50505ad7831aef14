//! Resolver plugins: the configured resolution override, the command a Bin
//! plugin spawns, and the response document it must write on its standard
//! output.

use vstd::prelude::*;

use crate::installer::Installer;
use crate::text::str_chars;
use crate::version::{spec_parse_version, Version};

verus! {

/// A version resolution plugin, as configured.
#[derive(Clone, Debug)]
pub enum Resolve {
    /// Resolves by sending the requirement to a URL; recognized but not
    /// implemented.
    Url(String),
    /// Resolves by spawning an executable and reading its standard output.
    Bin(String),
}

/// A plugin listing the available versions, as configured.
#[derive(Clone, Debug)]
pub enum LsRemote {
    Url(String),
    Bin(String),
}

/// The configured plugin command is empty or cannot be split into words.
#[derive(Clone, Debug)]
pub struct InvalidCommandError {
    /// The configured command.
    pub command: String,
}

/// Why a plugin resolution failed.
#[derive(Clone, Debug)]
pub enum ResolutionError {
    /// The URL plugin kind is recognized but not implemented.
    UrlUnsupported,
    /// The configured command is empty or holds characters the splitter does
    /// not take.
    InvalidCommand(InvalidCommandError),
    /// The plugin wrote something other than a resolution document; carries
    /// the offending command.
    MalformedResponse { command: String },
    /// The plugin chose the stream delivery, which is not supported.
    StreamUnsupported { version: Version },
    /// The plugin process could not be spawned or produced no output; carries
    /// the offending command.
    SpawnFailed { command: String },
}

/// The command line a Bin plugin spawns: an executable and its arguments.
pub struct PluginCommand {
    pub bin: String,
    pub args: Vec<String>,
}

/// The words of a plugin command string under POSIX shell-like splitting of
/// its trimmed text, quoting respected.
pub uninterp spec fn cmdline_words_of(s: Seq<char>) -> Seq<Seq<char>>;

/// Command text the splitter is specified on: ASCII characters only, and none
/// of tab, newline or carriage return. The splitter drops the byte after a
/// backslash, which inside a multi-byte character leaves invalid text and a
/// panic; and it ends a word at tab, newline and carriage return but consumes
/// only spaces between words, so those characters make its iterator yield
/// empty words forever.
pub open spec fn plain_command_text(s: Seq<char>) -> bool {
    forall|i: int|
        #![trigger s[i]]
        0 <= i < s.len() ==> ((s[i] as int) < 128 && s[i] != '\t' && s[i] != '\n' && s[i]
            != '\r')
}

/// Decides whether the splitter takes this command text.
fn text_is_plain(s: &str) -> (r: bool)
    ensures
        r == plain_command_text(s@),
{
    let v = str_chars(s);
    let n = v.len();
    let mut i: usize = 0;
    while i < n
        invariant
            n == v@.len(),
            v@ == s@,
            i <= n,
            forall|k: int|
                #![trigger s@[k]]
                0 <= k < i ==> ((s@[k] as int) < 128 && s@[k] != '\t' && s@[k] != '\n' && s@[k]
                    != '\r'),
        decreases n - i,
    {
        let c = v[i];
        proof {
            assert('\u{80}' as int == 128);
            assert(s@[i as int] == c);
        }
        if !(c < '\u{80}' && c != '\t' && c != '\n' && c != '\r') {
            proof {
                assert(!plain_command_text(s@));
            }
            return false;
        }
        i += 1;
    }
    true
}

/// Relies on cmdline_words_parser::parse_posix: POSIX shell-like word
/// splitting, a pure function of the command text. The precondition keeps to
/// the text the splitter handles: on other text it can panic (a backslash
/// inside a multi-byte character) or yield words forever (tab, newline or
/// carriage return between words).
#[verifier::external_body]
fn split_command_words(s: &str) -> (words: Vec<String>)
    requires
        plain_command_text(s@),
    ensures
        words.deep_view() == cmdline_words_of(s@),
{
    let mut buf = s.trim().to_string();
    let mut out = Vec::new();
    for w in cmdline_words_parser::parse_posix(&mut buf) {
        out.push(w.to_string());
    }
    out
}

impl Resolve {
    /// The plan for resolving through this plugin: the command to spawn for a
    /// Bin plugin, whose first word is the executable and whose remaining
    /// words are its arguments. An empty command, or one holding characters
    /// the splitter does not take, is a configuration error; the URL kind
    /// fails with its own error, never a silent resolution.
    pub fn resolve_plan(&self) -> (r: Result<PluginCommand, ResolutionError>)
        ensures
            match *self {
                Resolve::Url(_) => r matches Err(ResolutionError::UrlUnsupported),
                Resolve::Bin(b) => {
                    let words = cmdline_words_of(b@);
                    if !plain_command_text(b@) || words.len() == 0 {
                        r matches Err(ResolutionError::InvalidCommand(e)) && e.command@ == b@
                    } else {
                        r matches Ok(pc) && pc.bin@ == words[0] && pc.args.deep_view()
                            == words.drop_first()
                    }
                },
            },
    {
        match self {
            Resolve::Url(_) => Err(ResolutionError::UrlUnsupported),
            Resolve::Bin(b) => {
                if !text_is_plain(b.as_str()) {
                    return Err(
                        ResolutionError::InvalidCommand(
                            InvalidCommandError { command: b.clone() },
                        ),
                    );
                }
                let mut words = split_command_words(b.as_str());
                let ghost all = words.deep_view();
                if words.len() == 0 {
                    return Err(
                        ResolutionError::InvalidCommand(
                            InvalidCommandError { command: b.clone() },
                        ),
                    );
                }
                let ghost pre = words@;
                let bin = words.remove(0);
                proof {
                    assert(bin@ == pre[0].deep_view());
                    assert(bin@ == all[0]);
                    assert forall|t: int| 0 <= t < words@.len() implies words.deep_view()[t]
                        == all[t + 1] by {
                        assert(words@[t] == pre[t + 1]);
                    }
                    assert(words.deep_view() =~= all.drop_first());
                }
                Ok(PluginCommand { bin, args: words })
            },
        }
    }
}

/// A response from a version resolution plugin.
#[derive(Clone, Debug)]
pub enum ResolveResponse {
    /// The installer for the resolved version can be downloaded from the
    /// given location.
    Url { version: Version, url: String },
    /// The payload for the resolved version arrives on the plugin's own
    /// output stream; recognized but not supported.
    Stream { version: Version },
}

impl ResolveResponse {
    /// Builds a response from the fields of the decoded response document:
    /// the discriminator (its `type` field), the version text, and the
    /// download location if any; `command` is the configured plugin command,
    /// which a malformed response carries back for the user. Anything but a
    /// `url` response with a version and a location, or a `stream` response
    /// with a version, is malformed.
    pub fn from_fields(command: &str, kind: &str, version: &str, url: Option<&str>) -> (r: Result<
        ResolveResponse,
        ResolutionError,
    >)
        ensures
            match r {
                Ok(resp) => match resp {
                    ResolveResponse::Url { version: v, url: u } => kind@ == "url"@
                        && spec_parse_version(version@) == Some(v) && (url matches Some(us) && u@
                        == us@),
                    ResolveResponse::Stream { version: v } => kind@ == "stream"@
                        && spec_parse_version(version@) == Some(v),
                },
                Err(e) => (e matches ResolutionError::MalformedResponse { command: c } && c@
                    == command@),
            },
            r is Ok <==> ((kind@ == "url"@ && spec_parse_version(version@) is Some && url
                is Some) || (kind@ == "stream"@ && spec_parse_version(version@) is Some)),
    {
        proof {
            reveal_strlit("url");
            reveal_strlit("stream");
            assert("url"@.len() == 3);
            assert("stream"@.len() == 6);
        }
        let k = kind.to_owned();
        if k == "url".to_owned() {
            proof {
                assert(kind@ == "url"@);
                assert(kind@ != "stream"@);
            }
            match (Version::parse(version), url) {
                (Some(v), Some(u)) => Ok(ResolveResponse::Url { version: v, url: u.to_owned() }),
                _ => Err(ResolutionError::MalformedResponse { command: command.to_owned() }),
            }
        } else if k == "stream".to_owned() {
            proof {
                assert(kind@ == "stream"@);
                assert(kind@ != "url"@);
            }
            match Version::parse(version) {
                Some(v) => Ok(ResolveResponse::Stream { version: v }),
                None => Err(ResolutionError::MalformedResponse { command: command.to_owned() }),
            }
        } else {
            proof {
                assert(kind@ != "url"@ && kind@ != "stream"@);
            }
            Err(ResolutionError::MalformedResponse { command: command.to_owned() })
        }
    }

    /// Turns a response into the installer it names: a `url` response is an
    /// installer downloading from that location; a `stream` response fails
    /// loudly, as stream delivery is not supported.
    pub fn into_installer(self) -> (r: Result<Installer, ResolutionError>)
        ensures
            match self {
                ResolveResponse::Url { version, url } => (r matches Ok(inst) && inst.version
                    == version && (inst.origin matches crate::installer::InstallOrigin::Remote {
                    url: u,
                } && u@ == url@)),
                ResolveResponse::Stream { version } => r matches Err(
                    ResolutionError::StreamUnsupported { version: v },
                ) && v == version,
            },
    {
        match self {
            ResolveResponse::Url { version, url } => Ok(Installer::remote(version, url.as_str())),
            ResolveResponse::Stream { version } => Err(
                ResolutionError::StreamUnsupported { version },
            ),
        }
    }
}

} // verus!
