//! Values of command line flags.
use crate::copying::{opt_text, opt_texts, texts};
use crate::machine::errors::{ConfigError, config_error};
use crate::numerals::{decimal, decimal_chars, parse_number, parse_u32};
use crate::paths::{absolute, path_is_absolute};
use crate::phrase::{extend_texts, lemma_texts_push};
use crate::split::{
    after_prefix, has_char, split_first, split_once_chars, stretch, strip_prefix_chars,
};
use crate::table::Table;
use crate::text::{chars_of, say3, say4, say5, string_of};
use vstd::prelude::*;

verus! {

// ---------------------------------------------------------------------------
// Images
// ---------------------------------------------------------------------------

/// Whether `s` starts with `prefix`.
pub open spec fn starts(s: Seq<char>, prefix: Seq<char>) -> bool {
    after_prefix(s, prefix) is Some
}

/// Whether a word looks like an image reference: it has a tag, or a slash and is no
/// path.
pub open spec fn image_like(s: Seq<char>) -> bool {
    s.contains(':') || (s.contains('/') && !starts(s, "/"@) && !starts(s, "./"@) && !starts(
        s,
        "../"@,
    ))
}

/// Whether a word looks like an image reference rather than an executable name or
/// path. Bare names are not, as they cannot be told from commands.
pub fn is_likely_image_ref(s: &str) -> (r: bool)
    ensures
        r == image_like(s@),
{
    let chars = chars_of(s);
    if has_char(&chars, ':') {
        return true;
    }
    has_char(&chars, '/') && strip_prefix_chars(&chars, "/").is_none() && strip_prefix_chars(
        &chars,
        "./",
    ).is_none() && strip_prefix_chars(&chars, "../").is_none()
}

// ---------------------------------------------------------------------------
// Egress
// ---------------------------------------------------------------------------

/// What looking a host up gives: its ranges, or why there are none.
pub open spec fn answer_view(a: Result<Vec<String>, String>) -> Result<Seq<Seq<char>>, Seq<char>> {
    match a {
        Ok(v) => Ok(texts(v@)),
        Err(e) => Err(e@),
    }
}

/// All ranges of the hosts that were looked up, or the first failure.
pub open spec fn answered(answers: Seq<Result<Vec<String>, String>>) -> Result<
    Seq<Seq<char>>,
    Seq<char>,
>
    decreases answers.len(),
{
    if answers.len() == 0 {
        Ok(Seq::empty())
    } else {
        match answered(answers.drop_last()) {
            Err(e) => Err(e),
            Ok(front) => match answer_view(answers.last()) {
                Ok(v) => Ok(front + v),
                Err(e) => Err(e),
            },
        }
    }
}

/// The ranges that restrict egress to this host.
pub open spec fn localhost_ranges() -> Seq<Seq<char>> {
    seq!["127.0.0.0/8"@, "::1/128"@]
}

/// What the egress flags come to.
#[derive(Debug)]
pub struct Egress {
    /// Ranges that can be reached.
    pub cidrs: Vec<String>,
    /// Whether there is a network.
    pub net: bool,
    /// Host names that resolve.
    pub hosts: Option<Vec<String>>,
}

/// Ranges that can be reached: those given, those of the hosts, those of this host.
pub open spec fn egress_cidrs(
    allow_cidr: Seq<Seq<char>>,
    of_hosts: Seq<Seq<char>>,
    localhost_only: bool,
) -> Seq<Seq<char>> {
    allow_cidr + of_hosts + if localhost_only {
        localhost_ranges()
    } else {
        Seq::empty()
    }
}

/// The ranges that the egress flags come to, or why a host has none.
pub open spec fn egress_ranges(
    allow_cidr: Seq<Seq<char>>,
    answers: Seq<Result<Vec<String>, String>>,
    localhost_only: bool,
) -> Result<Seq<Seq<char>>, (Seq<char>, Seq<char>)> {
    match answered(answers) {
        Ok(of_hosts) => Ok(egress_cidrs(allow_cidr, of_hosts, localhost_only)),
        Err(e) => Err(("--allow-host"@, e)),
    }
}

/// What the egress flags come to. A host that could not be looked up is an error, so
/// that a typo never weakens the policy. `answers` are those for `allow_host`, in
/// order, up to the first failure.
pub fn resolve_egress_flags(
    allow_cidr: Vec<String>,
    allow_host: Vec<String>,
    answers: &[Result<Vec<String>, String>],
    outbound_localhost_only: bool,
    net: bool,
) -> (r: Result<Egress, ConfigError>)
    ensures
        match (answered(answers@), r) {
            (Err(e), Err(x)) => x@ == ("--allow-host"@, e),
            (Ok(v), Ok(x)) => {
                &&& texts(x.cidrs@) == egress_cidrs(texts(allow_cidr@), v, outbound_localhost_only)
                &&& x.net == (net || texts(x.cidrs@).len() > 0)
                &&& opt_texts(x.hosts) == if allow_host@.len() == 0 {
                    None
                } else {
                    Some(texts(allow_host@))
                }
            },
            _ => false,
        },
{
    let mut cidrs = allow_cidr;
    let mut i: usize = 0;
    proof {
        assert(answers@.take(0) =~= Seq::empty());
        assert(texts(allow_cidr@) + Seq::<Seq<char>>::empty() =~= texts(allow_cidr@));
    }
    while i < answers.len()
        invariant
            i <= answers@.len(),
            answered(answers@.take(i as int)) is Ok,
            texts(cidrs@) == texts(allow_cidr@) + answered(answers@.take(i as int))->Ok_0,
        decreases answers@.len() - i,
    {
        proof {
            let next = answers@.take(i + 1);
            assert(next.drop_last() =~= answers@.take(i as int));
            assert(next.last() == answers@[i as int]);
        }
        match &answers[i] {
            Ok(v) => {
                extend_texts(&mut cidrs, v);
                proof {
                    let front = answered(answers@.take(i as int))->Ok_0;
                    assert(texts(allow_cidr@) + front + texts(v@) =~= texts(allow_cidr@) + (front
                        + texts(v@)));
                }
            },
            Err(e) => {
                proof { lemma_failure_stays(answers@, i + 1); }
                return Err(config_error("--allow-host", e.clone()));
            },
        }
        i = i + 1;
    }
    proof { assert(answers@.take(answers@.len() as int) =~= answers@); }
    let ghost given = texts(cidrs@);
    if outbound_localhost_only {
        let ghost v0 = cidrs@;
        cidrs.push("127.0.0.0/8".to_owned());
        let ghost v1 = cidrs@;
        proof { lemma_texts_push(v0, v1.last()); assert(v1 =~= v0.push(v1.last())); }
        cidrs.push("::1/128".to_owned());
        proof {
            let v2 = cidrs@;
            lemma_texts_push(v1, v2.last());
            assert(v2 =~= v1.push(v2.last()));
            assert(texts(v2) =~= given + localhost_ranges());
        }
    } else {
        proof { assert(given =~= given + Seq::<Seq<char>>::empty()); }
    }
    let net = net || cidrs.len() > 0;
    let hosts = if allow_host.len() == 0 {
        None
    } else {
        Some(allow_host)
    };
    Ok(Egress { cidrs, net, hosts })
}

proof fn lemma_failure_stays(answers: Seq<Result<Vec<String>, String>>, n: int)
    requires
        0 <= n <= answers.len(),
        answered(answers.take(n)) is Err,
    ensures
        answered(answers) == answered(answers.take(n)),
    decreases answers.len() - n,
{
    if n == answers.len() {
        assert(answers.take(n) =~= answers);
    } else {
        assert(answers.take(n + 1).drop_last() =~= answers.take(n));
        lemma_failure_stays(answers, n + 1);
    }
}

// ---------------------------------------------------------------------------
// Ports and durations
// ---------------------------------------------------------------------------

/// A port as text.
pub open spec fn port_number(s: Seq<char>) -> Option<u16> {
    match parse_number(s, 10, u16::MAX as nat) {
        Some(n) => Some(n as u16),
        None => None,
    }
}

/// The mapping that `HOST:GUEST` means. No other form is taken, which is a choice made
/// here.
pub open spec fn port_mapping(s: Seq<char>) -> Option<(u16, u16)> {
    match split_first(s, ':') {
        Some((h, g)) => match (port_number(h), port_number(g)) {
            (Some(h), Some(g)) => Some((h, g)),
            _ => None,
        },
        None => None,
    }
}

fn read_port(s: &[char]) -> (r: Option<u16>)
    ensures
        r == port_number(s@),
{
    match parse_u32(s) {
        Some(n) => if n <= 0xffff {
            Some(n as u16)
        } else {
            None
        },
        None => None,
    }
}

/// Reads a port mapping.
pub fn parse_port_mapping(s: &str) -> (r: Option<(u16, u16)>)
    ensures
        r == port_mapping(s@),
{
    match split_once_chars(&chars_of(s), ':') {
        Some((h, g)) => match (read_port(&h), read_port(&g)) {
            (Some(h), Some(g)) => Some((h, g)),
            _ => None,
        },
        None => None,
    }
}

/// Milliseconds of a unit of time.
pub open spec fn unit_millis(c: char) -> nat {
    if c == 's' {
        1000
    } else if c == 'm' {
        60_000
    } else if c == 'h' {
        3_600_000
    } else {
        0
    }
}

/// Milliseconds that a number with a unit means. Which units there are, and that there
/// must be one, is a choice made here.
pub open spec fn duration_millis(s: Seq<char>) -> Option<nat> {
    if s.len() == 0 || unit_millis(s.last()) == 0 {
        None
    } else {
        match parse_number(s.drop_last(), 10, u32::MAX as nat) {
            Some(n) => Some(n * unit_millis(s.last())),
            None => None,
        }
    }
}

/// Reads a duration: a number and `s`, `m` or `h`.
pub fn parse_duration(s: &str) -> (r: Option<u64>)
    ensures
        match r {
            Some(n) => duration_millis(s@) == Some(n as nat),
            None => duration_millis(s@) is None,
        },
{
    let chars = chars_of(s);
    let n = chars.len();
    if n == 0 {
        return None;
    }
    let unit: u64 = match chars[n - 1] {
        's' => 1000,
        'm' => 60_000,
        'h' => 3_600_000,
        _ => {
            return None;
        },
    };
    let head = stretch(&chars, 0, n - 1);
    proof { assert(head@ =~= s@.drop_last()); }
    match parse_u32(&head) {
        Some(count) => {
            proof {
                assert(count * unit <= 0xffff_ffff * 3_600_000) by (nonlinear_arith)
                    requires
                        count <= 0xffff_ffff,
                        unit <= 3_600_000,
                ;
            }
            Some(count as u64 * unit)
        },
        None => None,
    }
}

// ---------------------------------------------------------------------------
// Sockets
// ---------------------------------------------------------------------------

/// Which side listens on a published socket.
#[derive(Debug, Clone, Copy, PartialEq, Eq, Structural)]
pub enum SocketDirection {
    /// The guest listens, the host connects.
    Expose,
    /// The host listens, the guest connects.
    Mount,
}

/// A socket that both sides see.
#[derive(Debug, PartialEq, Eq)]
pub struct PublishedSocketConfig {
    pub direction: SocketDirection,
    /// Where the guest sees it.
    pub guest_path: String,
    /// Where the host sees it, if that was said.
    pub host_path: Option<String>,
}

/// A socket that both sides see.
pub struct SocketModel {
    pub direction: SocketDirection,
    pub guest_path: Seq<char>,
    pub host_path: Option<Seq<char>>,
}

impl View for PublishedSocketConfig {
    type V = SocketModel;

    open spec fn view(&self) -> SocketModel {
        SocketModel {
            direction: self.direction,
            guest_path: self.guest_path@,
            host_path: opt_text(self.host_path),
        }
    }
}

/// Sockets by what they are.
pub open spec fn sockets_view(v: Seq<PublishedSocketConfig>) -> Seq<SocketModel> {
    v.map_values(|s: PublishedSocketConfig| s@)
}

/// What a flag that exposes a guest socket says.
pub open spec fn exposed(spec: Seq<char>) -> Result<SocketModel, (Seq<char>, Seq<char>)> {
    let (guest, host) = match split_first(spec, ':') {
        Some((g, h)) => (g, if h.len() > 0 {
            Some(h)
        } else {
            None
        }),
        None => (spec, None),
    };
    if guest.len() == 0 {
        Err(("expose-socket"@, "empty guest path in '"@ + spec + "'"@))
    } else {
        Ok(
            SocketModel {
                direction: SocketDirection::Expose,
                guest_path: guest,
                host_path: host,
            },
        )
    }
}

/// What a flag that mounts a host socket says.
pub open spec fn mounted(spec: Seq<char>) -> Result<SocketModel, (Seq<char>, Seq<char>)> {
    match split_first(spec, ':') {
        None => Err(("mount-socket"@, "expected HOST_PATH:GUEST_PATH, got '"@ + spec + "'"@)),
        Some((host, guest)) => if host.len() == 0 || guest.len() == 0 {
            Err(
                (
                    "mount-socket"@,
                    "both HOST_PATH and GUEST_PATH are required in '"@ + spec + "'"@,
                ),
            )
        } else {
            Ok(
                SocketModel {
                    direction: SocketDirection::Mount,
                    guest_path: guest,
                    host_path: Some(host),
                },
            )
        },
    }
}

/// What a socket flag says.
pub open spec fn socket_flag(direction: SocketDirection, spec: Seq<char>) -> Result<
    SocketModel,
    (Seq<char>, Seq<char>),
> {
    match direction {
        SocketDirection::Expose => exposed(spec),
        SocketDirection::Mount => mounted(spec),
    }
}

/// What socket flags of one kind say behind others, or what is wrong with the first
/// that is wrong.
pub open spec fn socket_flags(
    before: Seq<SocketModel>,
    direction: SocketDirection,
    specs: Seq<Seq<char>>,
) -> Result<Seq<SocketModel>, (Seq<char>, Seq<char>)>
    decreases specs.len(),
{
    if specs.len() == 0 {
        Ok(before)
    } else {
        match socket_flags(before, direction, specs.drop_last()) {
            Err(e) => Err(e),
            Ok(front) => match socket_flag(direction, specs.last()) {
                Err(e) => Err(e),
                Ok(s) => Ok(front.push(s)),
            },
        }
    }
}

/// A guest path that cannot be handed to the guest.
pub open spec fn unencodable(path: Seq<char>) -> bool {
    path.contains(';') || path.contains('|')
}

/// The first guest path that cannot be handed to the guest.
pub open spec fn first_unencodable(sockets: Seq<SocketModel>) -> Option<Seq<char>>
    decreases sockets.len(),
{
    if sockets.len() == 0 {
        None
    } else {
        match first_unencodable(sockets.drop_last()) {
            Some(p) => Some(p),
            None => if unencodable(sockets.last().guest_path) {
                Some(sockets.last().guest_path)
            } else {
                None
            },
        }
    }
}

/// The published sockets that the flags ask for, at most `max`.
pub open spec fn published_sockets(
    expose: Seq<Seq<char>>,
    mount: Seq<Seq<char>>,
    max: int,
) -> Result<Seq<SocketModel>, (Seq<char>, Seq<char>)> {
    match socket_flags(Seq::empty(), SocketDirection::Expose, expose) {
        Err(e) => Err(e),
        Ok(front) => match socket_flags(front, SocketDirection::Mount, mount) {
            Err(e) => Err(e),
            Ok(all) => if all.len() > max {
                Err(
                    (
                        "publish-socket"@,
                        "too many published sockets ("@ + decimal(all.len()) + "); max is "@
                            + decimal(max as nat),
                    ),
                )
            } else {
                match first_unencodable(all) {
                    Some(p) => Err(
                        (
                            "publish-socket"@,
                            "guest path '"@ + p
                                + "' contains an unsupported character (';' or '|')"@,
                        ),
                    ),
                    None => Ok(all),
                }
            },
        },
    }
}

fn read_socket_flag(direction: SocketDirection, spec: &String) -> (r: Result<
    PublishedSocketConfig,
    ConfigError,
>)
    ensures
        match (socket_flag(direction, spec@), r) {
            (Ok(m), Ok(s)) => s@ == m,
            (Err(e), Err(x)) => x@ == e,
            _ => false,
        },
{
    let chars = chars_of(spec.as_str());
    let halves = split_once_chars(&chars, ':');
    match direction {
        SocketDirection::Expose => {
            let (guest, host) = match halves {
                Some((g, h)) => (string_of(&g), if h.len() > 0 {
                    Some(string_of(&h))
                } else {
                    None
                }),
                None => (spec.clone(), None),
            };
            if chars_of(guest.as_str()).len() == 0 {
                return Err(
                    config_error("expose-socket", say3("empty guest path in '", spec.as_str(), "'")),
                );
            }
            Ok(
                PublishedSocketConfig {
                    direction: SocketDirection::Expose,
                    guest_path: guest,
                    host_path: host,
                },
            )
        },
        SocketDirection::Mount => match halves {
            None => Err(
                config_error(
                    "mount-socket",
                    say3("expected HOST_PATH:GUEST_PATH, got '", spec.as_str(), "'"),
                ),
            ),
            Some((host, guest)) => {
                if host.len() == 0 || guest.len() == 0 {
                    return Err(
                        config_error(
                            "mount-socket",
                            say3(
                                "both HOST_PATH and GUEST_PATH are required in '",
                                spec.as_str(),
                                "'",
                            ),
                        ),
                    );
                }
                Ok(
                    PublishedSocketConfig {
                        direction: SocketDirection::Mount,
                        guest_path: string_of(&guest),
                        host_path: Some(string_of(&host)),
                    },
                )
            },
        },
    }
}

proof fn lemma_socket_failure_stays(
    before: Seq<SocketModel>,
    direction: SocketDirection,
    specs: Seq<Seq<char>>,
    n: int,
)
    requires
        0 <= n <= specs.len(),
        socket_flags(before, direction, specs.take(n)) is Err,
    ensures
        socket_flags(before, direction, specs) == socket_flags(before, direction, specs.take(n)),
    decreases specs.len() - n,
{
    if n == specs.len() {
        assert(specs.take(n) =~= specs);
    } else {
        assert(specs.take(n + 1).drop_last() =~= specs.take(n));
        lemma_socket_failure_stays(before, direction, specs, n + 1);
    }
}

fn read_socket_flags(
    out: &mut Vec<PublishedSocketConfig>,
    direction: SocketDirection,
    specs: &[String],
) -> (r: Result<(), ConfigError>)
    ensures
        match (socket_flags(sockets_view(old(out)@), direction, texts(specs@)), r) {
            (Ok(m), Ok(_)) => sockets_view(final(out)@) == m,
            (Err(e), Err(x)) => x@ == e,
            _ => false,
        },
{
    let ghost before = sockets_view(out@);
    let mut i: usize = 0;
    proof { assert(texts(specs@).take(0) =~= Seq::empty()); }
    while i < specs.len()
        invariant
            i <= specs@.len(),
            before == sockets_view(old(out)@),
            socket_flags(before, direction, texts(specs@).take(i as int)) == Ok::<
                Seq<SocketModel>,
                (Seq<char>, Seq<char>),
            >(sockets_view(out@)),
        decreases specs@.len() - i,
    {
        proof {
            let next = texts(specs@).take(i + 1);
            assert(next.drop_last() =~= texts(specs@).take(i as int));
            assert(next.last() == specs@[i as int]@);
        }
        match read_socket_flag(direction, &specs[i]) {
            Ok(s) => {
                let ghost kept = out@;
                out.push(s);
                proof { assert(sockets_view(out@) =~= sockets_view(kept).push(s@)); }
            },
            Err(e) => {
                proof { lemma_socket_failure_stays(before, direction, texts(specs@), i + 1); }
                return Err(e);
            },
        }
        i = i + 1;
    }
    proof { assert(texts(specs@).take(specs@.len() as int) =~= texts(specs@)); }
    Ok(())
}

fn find_unencodable(sockets: &[PublishedSocketConfig]) -> (r: Option<usize>)
    ensures
        match r {
            Some(i) => i < sockets@.len() && first_unencodable(sockets_view(sockets@)) == Some(
                sockets@[i as int].guest_path@,
            ),
            None => first_unencodable(sockets_view(sockets@)) is None,
        },
{
    let ghost all = sockets_view(sockets@);
    let mut i: usize = 0;
    let mut found: Option<usize> = None;
    proof { assert(all.take(0) =~= Seq::empty()); }
    while i < sockets.len()
        invariant
            i <= sockets@.len(),
            all == sockets_view(sockets@),
            match found {
                Some(k) => k < sockets@.len() && first_unencodable(all.take(i as int)) == Some(
                    sockets@[k as int].guest_path@,
                ),
                None => first_unencodable(all.take(i as int)) is None,
            },
        decreases sockets@.len() - i,
    {
        proof {
            let next = all.take(i + 1);
            assert(next.drop_last() =~= all.take(i as int));
            assert(next.last() == sockets@[i as int]@);
        }
        let chars = chars_of(sockets[i].guest_path.as_str());
        if found.is_none() && (has_char(&chars, ';') || has_char(&chars, '|')) {
            found = Some(i);
        }
        i = i + 1;
    }
    proof { assert(all.take(sockets@.len() as int) =~= all); }
    found
}

/// Reads the flags for published sockets: `GUEST[:HOST]` exposes a socket of the
/// guest, `HOST:GUEST` mounts one of the host.
pub fn parse_published_sockets(expose: &[String], mount: &[String], max: usize) -> (r: Result<
    Vec<PublishedSocketConfig>,
    ConfigError,
>)
    ensures
        match (published_sockets(texts(expose@), texts(mount@), max as int), r) {
            (Ok(m), Ok(v)) => sockets_view(v@) == m,
            (Err(e), Err(x)) => x@ == e,
            _ => false,
        },
{
    let mut out: Vec<PublishedSocketConfig> = Vec::new();
    proof { assert(sockets_view(out@) =~= Seq::empty()); }
    match read_socket_flags(&mut out, SocketDirection::Expose, expose) {
        Ok(_) => {},
        Err(e) => {
            return Err(e);
        },
    }
    match read_socket_flags(&mut out, SocketDirection::Mount, mount) {
        Ok(_) => {},
        Err(e) => {
            return Err(e);
        },
    }
    if out.len() > max {
        let n = string_of(&decimal_chars(out.len() as u128));
        let m = string_of(&decimal_chars(max as u128));
        return Err(
            config_error(
                "publish-socket",
                say4("too many published sockets (", n.as_str(), "); max is ", m.as_str()),
            ),
        );
    }
    match find_unencodable(&out) {
        Some(i) => Err(
            config_error(
                "publish-socket",
                say3(
                    "guest path '",
                    out[i].guest_path.as_str(),
                    "' contains an unsupported character (';' or '|')",
                ),
            ),
        ),
        None => Ok(out),
    }
}

// ---------------------------------------------------------------------------
// Secrets
// ---------------------------------------------------------------------------

/// Where the value of a secret comes from. Exactly one source is given.
#[derive(Debug, PartialEq, Eq)]
pub struct SecretRef {
    /// A variable of the host.
    pub from_env: Option<String>,
    /// A file of the host.
    pub from_file: Option<String>,
}

/// Where the value of a secret comes from.
pub struct SecretModel {
    pub from_env: Option<Seq<char>>,
    pub from_file: Option<Seq<char>>,
}

impl View for SecretRef {
    type V = SecretModel;

    open spec fn view(&self) -> SecretModel {
        SecretModel { from_env: opt_text(self.from_env), from_file: opt_text(self.from_file) }
    }
}

/// The flag that a secret comes with.
#[derive(Debug, Clone, Copy, PartialEq, Eq, Structural)]
pub enum SecretFlag {
    FromEnv,
    FromFile,
}

/// The name of the flag.
pub open spec fn flag_text(flag: SecretFlag) -> Seq<char> {
    match flag {
        SecretFlag::FromEnv => "--secret-env"@,
        SecretFlag::FromFile => "--secret-file"@,
    }
}

/// The secret that a value stands for.
pub open spec fn secret_of(flag: SecretFlag, value: Seq<char>) -> SecretModel {
    match flag {
        SecretFlag::FromEnv => SecretModel { from_env: Some(value), from_file: None },
        SecretFlag::FromFile => SecretModel { from_env: None, from_file: Some(value) },
    }
}

/// One secret more, or what is wrong with it: a flag says `KEY=VALUE`, with a key
/// that no other has; a file is named from the root.
pub open spec fn secret_added(
    known: Map<Seq<char>, SecretModel>,
    flag: SecretFlag,
    spec: Seq<char>,
) -> Result<Map<Seq<char>, SecretModel>, (Seq<char>, Seq<char>)> {
    let what = flag_text(flag);
    match split_first(spec, '=') {
        None => Err((what, "expected KEY=VALUE, got '"@ + spec + "'"@)),
        Some((key, value)) => if key.len() == 0 {
            Err((what, "empty secret name in '"@ + spec + "'"@))
        } else if flag == SecretFlag::FromFile && !path_is_absolute(value) {
            Err(
                (
                    what,
                    "secret '"@ + key + "': from_file path must be absolute, got '"@ + value + "'"@,
                ),
            )
        } else if known.contains_key(key) {
            Err((what, "secret '"@ + key + "' specified more than once"@))
        } else {
            Ok(known.insert(key, secret_of(flag, value)))
        },
    }
}

/// All secrets of flags of one kind, behind others.
pub open spec fn secrets_added(
    known: Map<Seq<char>, SecretModel>,
    flag: SecretFlag,
    specs: Seq<Seq<char>>,
) -> Result<Map<Seq<char>, SecretModel>, (Seq<char>, Seq<char>)>
    decreases specs.len(),
{
    if specs.len() == 0 {
        Ok(known)
    } else {
        match secrets_added(known, flag, specs.drop_last()) {
            Err(e) => Err(e),
            Ok(front) => secret_added(front, flag, specs.last()),
        }
    }
}

/// The secrets that the flags name.
pub open spec fn secret_refs(env: Seq<Seq<char>>, file: Seq<Seq<char>>) -> Result<
    Map<Seq<char>, SecretModel>,
    (Seq<char>, Seq<char>),
> {
    match secrets_added(Map::empty(), SecretFlag::FromEnv, env) {
        Err(e) => Err(e),
        Ok(m) => secrets_added(m, SecretFlag::FromFile, file),
    }
}

proof fn lemma_secret_failure_stays(
    known: Map<Seq<char>, SecretModel>,
    flag: SecretFlag,
    specs: Seq<Seq<char>>,
    n: int,
)
    requires
        0 <= n <= specs.len(),
        secrets_added(known, flag, specs.take(n)) is Err,
    ensures
        secrets_added(known, flag, specs) == secrets_added(known, flag, specs.take(n)),
    decreases specs.len() - n,
{
    if n == specs.len() {
        assert(specs.take(n) =~= specs);
    } else {
        assert(specs.take(n + 1).drop_last() =~= specs.take(n));
        lemma_secret_failure_stays(known, flag, specs, n + 1);
    }
}

fn add_secret(out: &mut Table<SecretRef>, flag: SecretFlag, spec: &String) -> (r: Result<
    (),
    ConfigError,
>)
    requires
        old(out).wf(),
    ensures
        final(out).wf(),
        match (secret_added(old(out)@, flag, spec@), r) {
            (Ok(m), Ok(_)) => final(out)@ == m,
            (Err(e), Err(x)) => x@ == e,
            _ => false,
        },
{
    let what = match flag {
        SecretFlag::FromEnv => "--secret-env",
        SecretFlag::FromFile => "--secret-file",
    };
    let chars = chars_of(spec.as_str());
    let (key, value) = match split_once_chars(&chars, '=') {
        Some((k, v)) => (k, v),
        None => {
            return Err(config_error(what, say3("expected KEY=VALUE, got '", spec.as_str(), "'")));
        },
    };
    if key.len() == 0 {
        return Err(config_error(what, say3("empty secret name in '", spec.as_str(), "'")));
    }
    let key = string_of(&key);
    let value = string_of(&value);
    if flag == SecretFlag::FromFile && !absolute(value.as_str()) {
        return Err(
            config_error(
                what,
                say5(
                    "secret '",
                    key.as_str(),
                    "': from_file path must be absolute, got '",
                    value.as_str(),
                    "'",
                ),
            ),
        );
    }
    if out.contains(key.as_str()) {
        return Err(
            config_error(what, say3("secret '", key.as_str(), "' specified more than once")),
        );
    }
    let secret = match flag {
        SecretFlag::FromEnv => SecretRef { from_env: Some(value), from_file: None },
        SecretFlag::FromFile => SecretRef { from_env: None, from_file: Some(value) },
    };
    out.insert(key.as_str(), secret);
    Ok(())
}

fn add_secrets(out: &mut Table<SecretRef>, flag: SecretFlag, specs: &[String]) -> (r: Result<
    (),
    ConfigError,
>)
    requires
        old(out).wf(),
    ensures
        final(out).wf(),
        match (secrets_added(old(out)@, flag, texts(specs@)), r) {
            (Ok(m), Ok(_)) => final(out)@ == m,
            (Err(e), Err(x)) => x@ == e,
            _ => false,
        },
{
    let ghost known = out@;
    let mut i: usize = 0;
    proof { assert(texts(specs@).take(0) =~= Seq::empty()); }
    while i < specs.len()
        invariant
            i <= specs@.len(),
            out.wf(),
            known == old(out)@,
            secrets_added(known, flag, texts(specs@).take(i as int)) == Ok::<
                Map<Seq<char>, SecretModel>,
                (Seq<char>, Seq<char>),
            >(out@),
        decreases specs@.len() - i,
    {
        proof {
            let next = texts(specs@).take(i + 1);
            assert(next.drop_last() =~= texts(specs@).take(i as int));
            assert(next.last() == specs@[i as int]@);
        }
        match add_secret(out, flag, &specs[i]) {
            Ok(_) => {},
            Err(e) => {
                proof { lemma_secret_failure_stays(known, flag, texts(specs@), i + 1); }
                return Err(e);
            },
        }
        i = i + 1;
    }
    proof { assert(texts(specs@).take(specs@.len() as int) =~= texts(specs@)); }
    Ok(())
}

/// Reads the flags for secrets, each under the name that the guest sees it by. A name
/// that occurs twice is an error, as keeping the last would hide a typo.
pub fn parse_cli_secret_refs(secret_env: &[String], secret_file: &[String]) -> (r: Result<
    Table<SecretRef>,
    ConfigError,
>)
    ensures
        match (secret_refs(texts(secret_env@), texts(secret_file@)), r) {
            (Ok(m), Ok(t)) => t.wf() && t@ == m,
            (Err(e), Err(x)) => x@ == e,
            _ => false,
        },
{
    let mut out: Table<SecretRef> = Table::new();
    match add_secrets(&mut out, SecretFlag::FromEnv, secret_env) {
        Ok(_) => {},
        Err(e) => {
            return Err(e);
        },
    }
    match add_secrets(&mut out, SecretFlag::FromFile, secret_file) {
        Ok(_) => {},
        Err(e) => {
            return Err(e);
        },
    }
    Ok(out)
}

/// The name and the value that a flag gives.
pub open spec fn secret_parts(spec: Seq<char>) -> (Seq<char>, Seq<char>) {
    split_first(spec, '=')->Some_0
}

/// What flags of one kind add: every one of them, each under a name of its own, and
/// nothing else.
spec fn adds_all(
    known: Map<Seq<char>, SecretModel>,
    flag: SecretFlag,
    specs: Seq<Seq<char>>,
    m: Map<Seq<char>, SecretModel>,
) -> bool {
    &&& forall|i: int|
        0 <= i < specs.len() ==> split_first(#[trigger] specs[i], '=') is Some && m.contains_key(
            secret_parts(specs[i]).0,
        ) && m[secret_parts(specs[i]).0] == secret_of(flag, secret_parts(specs[i]).1)
            && !known.contains_key(secret_parts(specs[i]).0)
    &&& forall|i: int, j: int|
        #![trigger specs[i], specs[j]]
        0 <= i < j < specs.len() ==> secret_parts(specs[i]).0 != secret_parts(specs[j]).0
    &&& forall|k: Seq<char>| #[trigger]
        known.contains_key(k) ==> m.contains_key(k) && m[k] == known[k]
}

proof fn lemma_adds_all(
    known: Map<Seq<char>, SecretModel>,
    flag: SecretFlag,
    specs: Seq<Seq<char>>,
)
    requires
        secrets_added(known, flag, specs) is Ok,
    ensures
        adds_all(known, flag, specs, secrets_added(known, flag, specs)->Ok_0),
    decreases specs.len(),
{
    if specs.len() > 0 {
        let front = specs.drop_last();
        lemma_adds_all(known, flag, front);
        let before = secrets_added(known, flag, front)->Ok_0;
        let m = secrets_added(known, flag, specs)->Ok_0;
        let n = specs.len() - 1;
        let key = secret_parts(specs[n]).0;
        assert(!before.contains_key(key));
        assert forall|i: int| 0 <= i < specs.len() implies split_first(#[trigger] specs[i], '=')
            is Some && m.contains_key(secret_parts(specs[i]).0) && m[secret_parts(specs[i]).0]
            == secret_of(flag, secret_parts(specs[i]).1) && !known.contains_key(
            secret_parts(specs[i]).0,
        ) by {
            if i < n {
                assert(front[i] == specs[i]);
            }
        }
        assert forall|i: int, j: int|
            #![trigger specs[i], specs[j]]
            0 <= i < j < specs.len() implies secret_parts(specs[i]).0 != secret_parts(specs[j]).0 by {
            assert(front[i] == specs[i]);
            if j < n {
                assert(front[j] == specs[j]);
            }
        }
    }
}

/// Where the flags for secrets are accepted, no two of them have the same name, within
/// or across the two kinds, and each secret is the one that its flag names.
pub proof fn law_secret_names_are_distinct(env: Seq<Seq<char>>, file: Seq<Seq<char>>)
    requires
        secret_refs(env, file) is Ok,
    ensures
        ({
            let m = secret_refs(env, file)->Ok_0;
            &&& forall|i: int|
                0 <= i < env.len() ==> m.contains_key(secret_parts(#[trigger] env[i]).0)
                    && m[secret_parts(env[i]).0] == secret_of(
                    SecretFlag::FromEnv,
                    secret_parts(env[i]).1,
                )
            &&& forall|i: int|
                0 <= i < file.len() ==> m.contains_key(secret_parts(#[trigger] file[i]).0)
                    && m[secret_parts(file[i]).0] == secret_of(
                    SecretFlag::FromFile,
                    secret_parts(file[i]).1,
                )
            &&& forall|i: int, j: int|
                #![trigger env[i], env[j]]
                0 <= i < j < env.len() ==> secret_parts(env[i]).0 != secret_parts(env[j]).0
            &&& forall|i: int, j: int|
                #![trigger file[i], file[j]]
                0 <= i < j < file.len() ==> secret_parts(file[i]).0 != secret_parts(file[j]).0
            &&& forall|i: int, j: int|
                #![trigger env[i], file[j]]
                0 <= i < env.len() && 0 <= j < file.len() ==> secret_parts(env[i]).0
                    != secret_parts(file[j]).0
        }),
{
    let first = secrets_added(Map::empty(), SecretFlag::FromEnv, env)->Ok_0;
    lemma_adds_all(Map::empty(), SecretFlag::FromEnv, env);
    lemma_adds_all(first, SecretFlag::FromFile, file);
    let m = secret_refs(env, file)->Ok_0;
    assert forall|i: int| 0 <= i < env.len() implies m.contains_key(
        secret_parts(#[trigger] env[i]).0,
    ) && m[secret_parts(env[i]).0] == secret_of(SecretFlag::FromEnv, secret_parts(env[i]).1) by {
        assert(first.contains_key(secret_parts(env[i]).0));
    }
    assert forall|i: int, j: int|
        #![trigger env[i], file[j]]
        0 <= i < env.len() && 0 <= j < file.len() implies secret_parts(env[i]).0 != secret_parts(
        file[j],
    ).0 by {
        assert(first.contains_key(secret_parts(env[i]).0));
        assert(!first.contains_key(secret_parts(file[j]).0));
    }
}

/// What is published or mounted comes in the order of the flags, exposed sockets
/// first, one for each flag.
pub proof fn law_every_flag_gives_one_socket(
    expose: Seq<Seq<char>>,
    mount: Seq<Seq<char>>,
    max: int,
)
    requires
        published_sockets(expose, mount, max) is Ok,
    ensures
        ({
            let all = published_sockets(expose, mount, max)->Ok_0;
            &&& all.len() == expose.len() + mount.len()
            &&& all.len() <= max
            &&& forall|i: int|
                0 <= i < expose.len() ==> exposed(expose[i]) == Ok::<
                    SocketModel,
                    (Seq<char>, Seq<char>),
                >(#[trigger] all[i])
            &&& forall|i: int|
                0 <= i < mount.len() ==> mounted(mount[i]) == Ok::<
                    SocketModel,
                    (Seq<char>, Seq<char>),
                >(#[trigger] all[expose.len() + i])
        }),
{
    let front = socket_flags(Seq::empty(), SocketDirection::Expose, expose)->Ok_0;
    lemma_socket_each(Seq::empty(), SocketDirection::Expose, expose);
    lemma_socket_each(front, SocketDirection::Mount, mount);
    let all = published_sockets(expose, mount, max)->Ok_0;
    assert forall|i: int| 0 <= i < expose.len() implies exposed(expose[i]) == Ok::<
        SocketModel,
        (Seq<char>, Seq<char>),
    >(#[trigger] all[i]) by {
        assert(all[i] == front[i]);
        assert(front[Seq::<SocketModel>::empty().len() + i] == front[i]);
    }
}

proof fn lemma_socket_each(
    before: Seq<SocketModel>,
    direction: SocketDirection,
    specs: Seq<Seq<char>>,
)
    requires
        socket_flags(before, direction, specs) is Ok,
    ensures
        ({
            let all = socket_flags(before, direction, specs)->Ok_0;
            &&& all.len() == before.len() + specs.len()
            &&& forall|i: int| 0 <= i < before.len() ==> #[trigger] all[i] == before[i]
            &&& forall|i: int|
                0 <= i < specs.len() ==> socket_flag(direction, specs[i]) == Ok::<
                    SocketModel,
                    (Seq<char>, Seq<char>),
                >(#[trigger] all[before.len() + i])
        }),
    decreases specs.len(),
{
    if specs.len() > 0 {
        let front = specs.drop_last();
        lemma_socket_each(before, direction, front);
        let all = socket_flags(before, direction, specs)->Ok_0;
        let shorter = socket_flags(before, direction, front)->Ok_0;
        assert forall|i: int| 0 <= i < specs.len() implies socket_flag(direction, specs[i]) == Ok::<
            SocketModel,
            (Seq<char>, Seq<char>),
        >(#[trigger] all[before.len() + i]) by {
            if i < front.len() {
                assert(all[before.len() + i] == shorter[before.len() + i]);
                assert(front[i] == specs[i]);
            }
        }
    }
}

} // verus!
