use vstd::prelude::*;
use crate::str_map::StrMap;
use crate::settings::SshCredentialsSettingsModel;
use crate::text::{chars_of, find_from, find_from_exec, split_seq, split_ranges, range_pieces,
    starts_with_seq, occurs_at_exec, parse_unsigned, parse_unsigned_spec};

verus! {

/// How to reach an agent through an SSH gateway: with a private key read from
/// `cert_path`, or through the running SSH agent.
pub enum SshCredentialsPlan {
    PrivateKey {
        ssh_remote_host: String,
        ssh_remote_port: u16,
        ssh_user_name: String,
        cert_path: String,
        passphrase: Option<String>,
    },
    SshAgent { ssh_remote_host: String, ssh_remote_port: u16, ssh_user_name: String },
}

/// The contents of an SSH plan.
pub enum SshPlanView {
    PrivateKey {
        host: Seq<char>,
        port: u16,
        user: Seq<char>,
        cert_path: Seq<char>,
        passphrase: Option<Seq<char>>,
    },
    SshAgent { host: Seq<char>, port: u16, user: Seq<char> },
}

impl View for SshCredentialsPlan {
    type V = SshPlanView;

    open spec fn view(&self) -> SshPlanView {
        match self {
            SshCredentialsPlan::PrivateKey {
                ssh_remote_host,
                ssh_remote_port,
                ssh_user_name,
                cert_path,
                passphrase,
            } => SshPlanView::PrivateKey {
                host: ssh_remote_host@,
                port: *ssh_remote_port,
                user: ssh_user_name@,
                cert_path: cert_path@,
                passphrase: match passphrase {
                    Some(p) => Some(p@),
                    None => None,
                },
            },
            SshCredentialsPlan::SshAgent { ssh_remote_host, ssh_remote_port, ssh_user_name } =>
                SshPlanView::SshAgent {
                host: ssh_remote_host@,
                port: *ssh_remote_port,
                user: ssh_user_name@,
            },
        }
    }
}

/// Why an `ssh:` URL cannot be used.
#[derive(Debug, PartialEq, Eq, Structural)]
pub enum SshUrlError {
    /// Not exactly one `->` between the gateway and the agent's URL.
    InvalidSshUrl,
    /// No `@` between the user and the gateway's host.
    MissingHost,
    /// No `:` between the gateway's host and its port.
    MissingPort,
    /// The gateway's port is not a number from 0 to 65535.
    InvalidPort,
    /// No `:` before the user name.
    MissingUserName,
}

/// The SSH line of the SSH side of a URL: the gateway `user@host:port`, which
/// is what follows the scheme, up to the first `:` (the whole part when it has
/// none). Private keys are configured under it.
pub open spec fn ssh_line_of(ssh_part: Seq<char>) -> Seq<char> {
    match find_from(ssh_part, seq![':'], 0) {
        Some(i) => ssh_part.subrange(i + 1, ssh_part.len() as int),
        None => ssh_part,
    }
}

/// The private key configured for a gateway: the one under its SSH line, else
/// the one under `"*"`, which applies to every gateway; none when neither is
/// configured.
pub open spec fn gateway_key(
    credentials: Option<Map<Seq<char>, SshCredentialsSettingsModel>>,
    ssh_line: Seq<char>,
) -> Option<SshCredentialsSettingsModel> {
    match credentials {
        Some(m) => if m.contains_key(ssh_line) {
            Some(m[ssh_line])
        } else if m.contains_key(seq!['*']) {
            Some(m[seq!['*']])
        } else {
            None
        },
        None => None,
    }
}

/// The gateway (`user@host:port`) and the agent's URL of an `ssh:` URL
/// (`ssh:user@host:port->url`), or why they cannot be had. The user name is
/// what follows the first `:` of the part before the first `@`; host and port
/// are the first two `:`-separated pieces after it.
pub open spec fn ssh_target(url: Seq<char>) -> Result<(Seq<char>, u16, Seq<char>, Seq<char>, Seq<char>), SshUrlError> {
    let parts = split_seq(url, seq!['-', '>']);
    if parts.len() != 2 {
        Err(SshUrlError::InvalidSshUrl)
    } else {
        let left = parts[0];
        let items = split_seq(left, seq!['@']);
        if items.len() < 2 {
            Err(SshUrlError::MissingHost)
        } else {
            let user_part = split_seq(items[0], seq![':']);
            let host_part = split_seq(items[1], seq![':']);
            if host_part.len() < 2 {
                Err(SshUrlError::MissingPort)
            } else {
                match parse_unsigned_spec(host_part[1], u16::MAX as int) {
                    None => Err(SshUrlError::InvalidPort),
                    Some(port) => if user_part.len() < 2 {
                        Err(SshUrlError::MissingUserName)
                    } else {
                        Ok((host_part[0], port as u16, user_part[1], ssh_line_of(left), parts[1]))
                    },
                }
            }
        }
    }
}

/// How `url` is reached: a URL not starting with `ssh` is used as it is; an
/// `ssh:` URL names a gateway and the agent's URL behind it, reached with the
/// private key configured for the gateway (or under `"*"`) when there is one,
/// and through the SSH agent otherwise.
pub open spec fn url_plan(
    url: Seq<char>,
    credentials: Option<Map<Seq<char>, SshCredentialsSettingsModel>>,
) -> Result<(Option<SshPlanView>, Seq<char>), SshUrlError> {
    if !starts_with_seq(url, seq!['s', 's', 'h']) {
        Ok((None, url))
    } else {
        match ssh_target(url) {
            Err(e) => Err(e),
            Ok((host, port, user, ssh_line, remote)) => {
                let plan = match gateway_key(credentials, ssh_line) {
                    Some(k) => SshPlanView::PrivateKey {
                        host,
                        port,
                        user,
                        cert_path: k.cert_path@,
                        passphrase: Some(k.cert_pass_prase@),
                    },
                    None => SshPlanView::SshAgent { host, port, user },
                };
                Ok((Some(plan), remote))
            },
        }
    }
}

/// The SSH line (`user@host:port`) of the SSH side of a URL.
pub fn extract_ssh_line(ssh_part: &str) -> (r: &str)
    ensures
        r@ == ssh_line_of(ssh_part@),
{
    let chars = chars_of(ssh_part);
    let colon = [':'];
    assert(colon@ == seq![':']);
    match find_from_exec(chars.as_slice(), &colon, 0) {
        Some(index) => {
            proof {
                crate::text::lemma_find_from_bounds(ssh_part@, seq![':'], 0);
                assert(seq![':'].len() == 1);
                assert(index + 1 <= ssh_part@.len());
                assert(chars@ == ssh_part@);
                assert(index + 1 <= chars.len());
            }
            ssh_part.substring_char(index + 1, chars.len())
        },
        None => ssh_part,
    }
}

/// The pieces of `s` between the occurrences of `sep`, as strings.
fn split_str<'a>(s: &'a str, sep: &[char]) -> (r: Vec<&'a str>)
    requires
        sep@.len() > 0,
    ensures
        r@.map_values(|p: &str| p@) == split_seq(s@, sep@),
{
    let chars = chars_of(s);
    let ranges = split_ranges(chars.as_slice(), sep);
    let ghost pieces = split_seq(s@, sep@);
    let mut r: Vec<&'a str> = Vec::new();
    let mut i: usize = 0;
    while i < ranges.len()
        invariant
            chars@ == s@,
            crate::text::ranges_within(s@, ranges@),
            range_pieces(s@, ranges@) == pieces,
            i <= ranges@.len(),
            r@.map_values(|p: &str| p@) == pieces.take(i as int),
        decreases ranges@.len() - i,
    {
        let (a, b) = ranges[i];
        assert(ranges@[i as int].0 <= ranges@[i as int].1 <= s@.len());
        let piece = s.substring_char(a, b);
        let ghost before = r@;
        r.push(piece);
        proof {
            assert(pieces[i as int] == s@.subrange(a as int, b as int));
            assert(r@.map_values(|p: &str| p@) =~= before.map_values(|p: &str| p@).push(piece@));
            assert(pieces.take(i + 1) =~= pieces.take(i as int).push(pieces[i as int]));
        }
        i = i + 1;
    }
    assert(pieces.take(pieces.len() as int) =~= pieces);
    r
}

/// The gateway and the agent's URL of an `ssh:` URL.
fn parse_ssh_target(url: &str) -> (r: Result<(String, u16, String, String, String), SshUrlError>)
    ensures
        match r {
            Ok((host, port, user, line, remote)) => ssh_target(url@) == Ok::<
                (Seq<char>, u16, Seq<char>, Seq<char>, Seq<char>),
                SshUrlError,
            >((host@, port, user@, line@, remote@)),
            Err(e) => ssh_target(url@) == Err::<
                (Seq<char>, u16, Seq<char>, Seq<char>, Seq<char>),
                SshUrlError,
            >(e),
        },
{
    let arrow = ['-', '>'];
    let at = ['@'];
    let colon = [':'];
    assert(arrow@ == seq!['-', '>']);
    assert(at@ == seq!['@']);
    assert(colon@ == seq![':']);
    let parts = split_str(url, &arrow);
    proof {
        assert(parts@.map_values(|p: &str| p@).len() == parts@.len());
    }
    if parts.len() != 2 {
        return Err(SshUrlError::InvalidSshUrl);
    }
    let left = parts[0];
    let right = parts[1];
    assert(left@ == split_seq(url@, seq!['-', '>'])[0]);
    assert(right@ == split_seq(url@, seq!['-', '>'])[1]);
    let ssh_line = extract_ssh_line(left);
    let ssh_items = split_str(left, &at);
    assert(ssh_items@.map_values(|p: &str| p@).len() == ssh_items@.len());
    if ssh_items.len() < 2 {
        return Err(SshUrlError::MissingHost);
    }
    let left_part = split_str(ssh_items[0], &colon);
    let right_part = split_str(ssh_items[1], &colon);
    assert(left_part@.map_values(|p: &str| p@).len() == left_part@.len());
    assert(right_part@.map_values(|p: &str| p@).len() == right_part@.len());
    if right_part.len() < 2 {
        return Err(SshUrlError::MissingPort);
    }
    let ssh_remote_host = right_part[0].to_owned();
    let port_chars = chars_of(right_part[1]);
    assert(right_part@.map_values(|p: &str| p@)[1] == right_part@[1]@);
    assert(right_part@.map_values(|p: &str| p@)[0] == right_part@[0]@);
    let ssh_remote_port = match parse_unsigned(port_chars.as_slice(), 65535) {
        Some(p) => p as u16,
        None => {
            return Err(SshUrlError::InvalidPort);
        },
    };
    if left_part.len() < 2 {
        return Err(SshUrlError::MissingUserName);
    }
    assert(left_part@.map_values(|p: &str| p@)[1] == left_part@[1]@);
    let ssh_user_name = left_part[1].to_owned();
    Ok((ssh_remote_host, ssh_remote_port, ssh_user_name, ssh_line.to_owned(), right.to_owned()))
}

/// The private keys configured per gateway, as contents.
pub open spec fn keys_view(ssh_credentials: Option<&StrMap<SshCredentialsSettingsModel>>) -> Option<
    Map<Seq<char>, SshCredentialsSettingsModel>,
> {
    match ssh_credentials {
        Some(m) => Some(m@),
        None => None,
    }
}

/// A plan, as its contents.
pub open spec fn opt_plan_view(p: Option<SshCredentialsPlan>) -> Option<SshPlanView> {
    match p {
        Some(p) => Some(p@),
        None => None,
    }
}

/// How to reach the agent at a URL that can be used: with no gateway, or
/// through its gateway with the configured key or the SSH agent. An `ssh:`
/// URL that cannot be used is left out; `try_parse_url` tells which URLs
/// those are, and why.
pub fn parse_url(
    url: &str,
    ssh_credentials: Option<&StrMap<SshCredentialsSettingsModel>>,
) -> (r: (Option<SshCredentialsPlan>, String))
    requires
        ssh_credentials matches Some(m) ==> m.wf(),
        url_plan(url@, keys_view(ssh_credentials)) is Ok,
    ensures
        url_plan(url@, keys_view(ssh_credentials)) == Ok::<(Option<SshPlanView>, Seq<char>), SshUrlError>(
            (opt_plan_view(r.0), r.1@),
        ),
{
    match try_parse_url(url, ssh_credentials) {
        Ok(r) => r,
        Err(_) => (None, url.to_owned()),
    }
}

/// How to reach the agent at `url`, with the private keys configured per
/// gateway, or why an `ssh:` URL cannot be used: the error comes on exactly
/// the URLs that `url_plan` refuses.
pub fn try_parse_url(
    url: &str,
    ssh_credentials: Option<&StrMap<SshCredentialsSettingsModel>>,
) -> (r: Result<(Option<SshCredentialsPlan>, String), SshUrlError>)
    requires
        ssh_credentials matches Some(m) ==> m.wf(),
    ensures
        match r {
            Ok((plan, target)) => url_plan(
                url@,
                match ssh_credentials {
                    Some(m) => Some(m@),
                    None => None,
                },
            ) == Ok::<(Option<SshPlanView>, Seq<char>), SshUrlError>((
                match plan {
                    Some(p) => Some(p@),
                    None => None,
                },
                target@,
            )),
            Err(e) => url_plan(
                url@,
                match ssh_credentials {
                    Some(m) => Some(m@),
                    None => None,
                },
            ) == Err::<(Option<SshPlanView>, Seq<char>), SshUrlError>(e),
        },
{
    let ssh = ['s', 's', 'h'];
    assert(ssh@ == seq!['s', 's', 'h']);
    let chars = chars_of(url);
    if !occurs_at_exec(chars.as_slice(), &ssh, 0) {
        return Ok((None, url.to_owned()));
    }
    let (ssh_remote_host, ssh_remote_port, ssh_user_name, ssh_line, remote) = match parse_ssh_target(url) {
        Ok(t) => t,
        Err(e) => {
            return Err(e);
        },
    };
    if let Some(credentials) = ssh_credentials {
        let any_gateway = "*";
        proof {
            reveal_strlit("*");
            assert(any_gateway@ =~= seq!['*']);
        }
        let key = match credentials.get(ssh_line.as_str()) {
            Some(k) => Some(k),
            None => credentials.get(any_gateway),
        };
        if let Some(credentials) = key {
            return Ok((
                Some(SshCredentialsPlan::PrivateKey {
                    ssh_remote_host,
                    ssh_remote_port,
                    ssh_user_name,
                    cert_path: credentials.cert_path.clone(),
                    passphrase: Some(credentials.cert_pass_prase.clone()),
                }),
                remote,
            ));
        }
    }
    Ok((Some(SshCredentialsPlan::SshAgent { ssh_remote_host, ssh_remote_port, ssh_user_name }), remote))
}

/// A URL that does not start with `ssh` is used as it is, with no gateway.
/// An `ssh:` URL that names its gateway is reached with the key configured for
/// its gateway (`user@host:port`), else with the key under `"*"`, and through
/// the SSH agent when neither is configured or no keys are configured at all;
/// either way its agent's URL is the part after `->`.
pub proof fn lemma_url_plan_cases(
    url: Seq<char>,
    credentials: Map<Seq<char>, SshCredentialsSettingsModel>,
)
    ensures
        !starts_with_seq(url, seq!['s', 's', 'h']) ==> url_plan(url, None) == Ok::<
            (Option<SshPlanView>, Seq<char>),
            SshUrlError,
        >((None, url)) && url_plan(url, Some(credentials)) == Ok::<
            (Option<SshPlanView>, Seq<char>),
            SshUrlError,
        >((None, url)),
        starts_with_seq(url, seq!['s', 's', 'h']) ==> match ssh_target(url) {
            Err(e) => url_plan(url, None) == Err::<(Option<SshPlanView>, Seq<char>), SshUrlError>(e),
            Ok((host, port, user, line, remote)) => {
                &&& url_plan(url, None) == Ok::<(Option<SshPlanView>, Seq<char>), SshUrlError>(
                    (Some(SshPlanView::SshAgent { host, port, user }), remote),
                )
                &&& credentials.contains_key(line) ==> url_plan(url, Some(credentials)) == Ok::<
                    (Option<SshPlanView>, Seq<char>),
                    SshUrlError,
                >((
                    Some(
                        SshPlanView::PrivateKey {
                            host,
                            port,
                            user,
                            cert_path: credentials[line].cert_path@,
                            passphrase: Some(credentials[line].cert_pass_prase@),
                        },
                    ),
                    remote,
                ))
                &&& !credentials.contains_key(line) && credentials.contains_key(seq!['*']) ==> url_plan(
                    url,
                    Some(credentials),
                ) == Ok::<(Option<SshPlanView>, Seq<char>), SshUrlError>((
                    Some(
                        SshPlanView::PrivateKey {
                            host,
                            port,
                            user,
                            cert_path: credentials[seq!['*']].cert_path@,
                            passphrase: Some(credentials[seq!['*']].cert_pass_prase@),
                        },
                    ),
                    remote,
                ))
                &&& !credentials.contains_key(line) && !credentials.contains_key(seq!['*']) ==> url_plan(
                    url,
                    Some(credentials),
                ) == Ok::<(Option<SshPlanView>, Seq<char>), SshUrlError>(
                    (Some(SshPlanView::SshAgent { host, port, user }), remote),
                )
            },
        },
{
}

} // verus!
