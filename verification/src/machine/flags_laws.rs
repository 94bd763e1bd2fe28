//! What the values of flags mean.
use crate::copying::texts;
use crate::machine::flags::{
    SecretFlag, SecretModel, SocketDirection, SocketModel, answered, duration_millis, egress_ranges,
    exposed, first_unencodable, image_like, localhost_ranges, mounted, port_mapping,
    published_sockets, secret_added, secret_refs, secrets_added, socket_flag, socket_flags,
    unit_millis,
};
use crate::machine::update_laws::sets_key;
use crate::numerals::{
    decimal, is_digit_char, lemma_numeral_chars, lemma_numeral_value, lemma_parse_numeral,
};
use crate::split::{law_split_first, split_first};
use vstd::prelude::*;

verus! {

// ---------------------------------------------------------------------------
// Images and egress
// ---------------------------------------------------------------------------

/// A word looks like an image reference if it has a colon, or a slash that does not make it
/// a path from the root, from here or from above.
pub proof fn law_what_looks_like_an_image(s: Seq<char>)
    ensures
        s.contains(':') ==> image_like(s),
        !s.contains(':') && !s.contains('/') ==> !image_like(s),
        !s.contains(':') && s.contains('/') ==> (image_like(s) <==> s[0] != '/' && !(s.len() >= 2
            && s[0] == '.' && s[1] == '/') && !(s.len() >= 3 && s[0] == '.' && s[1] == '.' && s[2]
            == '/')),
{
    reveal_strlit("/");
    reveal_strlit("./");
    reveal_strlit("../");
    if s.contains('/') {
        assert(s.len() > 0);
        assert(s.take(1) == "/"@ <==> s[0] == '/') by {
            if s[0] == '/' {
                assert(s.take(1) =~= "/"@);
            } else {
                assert(s.take(1)[0] != "/"@[0]);
            }
        }
        if s.len() >= 2 {
            assert(s.take(2) == "./"@ <==> s[0] == '.' && s[1] == '/') by {
                if s[0] == '.' && s[1] == '/' {
                    assert(s.take(2) =~= "./"@);
                } else if s.take(2) == "./"@ {
                    assert(s.take(2)[0] == s[0] && s.take(2)[1] == s[1]);
                }
            }
        }
        if s.len() >= 3 {
            assert(s.take(3) == "../"@ <==> s[0] == '.' && s[1] == '.' && s[2] == '/') by {
                if s[0] == '.' && s[1] == '.' && s[2] == '/' {
                    assert(s.take(3) =~= "../"@);
                } else if s.take(3) == "../"@ {
                    assert(s.take(3)[0] == s[0] && s.take(3)[1] == s[1] && s.take(3)[2] == s[2]);
                }
            }
        }
    }
}

/// The first host that could not be looked up is the error; there is none where all could.
pub proof fn law_first_lookup_failure_is_told(answers: Seq<Result<Vec<String>, String>>, i: int)
    requires
        0 <= i <= answers.len(),
        forall|j: int| 0 <= j < i ==> (#[trigger] answers[j]) is Ok,
    ensures
        i == answers.len() ==> answered(answers) is Ok,
        i < answers.len() && answers[i] is Err ==> answered(answers) == Err::<
            Seq<Seq<char>>,
            Seq<char>,
        >(answers[i]->Err_0@),
    decreases answers.len(),
{
    if answers.len() > 0 {
        let front = answers.drop_last();
        let last = answers.len() - 1;
        assert(answers.last() == answers[last]);
        if i <= last {
            assert forall|j: int| 0 <= j < i implies (#[trigger] front[j]) is Ok by {
                assert(front[j] == answers[j]);
            }
            law_first_lookup_failure_is_told(front, i);
            if i < last {
                assert(front[i] == answers[i]);
            }
        } else {
            assert forall|j: int| 0 <= j < last implies (#[trigger] front[j]) is Ok by {
                assert(front[j] == answers[j]);
            }
            law_first_lookup_failure_is_told(front, last);
        }
    }
}

proof fn lemma_answered_members(answers: Seq<Result<Vec<String>, String>>, x: Seq<char>)
    requires
        answered(answers) is Ok,
    ensures
        answered(answers)->Ok_0.contains(x) <==> exists|i: int|
            0 <= i < answers.len() && (#[trigger] answers[i]) is Ok && texts(
                answers[i]->Ok_0@,
            ).contains(x),
    decreases answers.len(),
{
    let all = answered(answers)->Ok_0;
    if answers.len() > 0 {
        let front = answers.drop_last();
        let last = answers.len() - 1;
        assert(answers.last() == answers[last]);
        lemma_answered_members(front, x);
        let a = answered(front)->Ok_0;
        let b = texts(answers[last]->Ok_0@);
        assert(all == a + b);
        lemma_sum_members(a, b, x);
        if a.contains(x) {
            let i = choose|i: int|
                0 <= i < front.len() && (#[trigger] front[i]) is Ok && texts(
                    front[i]->Ok_0@,
                ).contains(x);
            assert(answers[i] == front[i]);
        }
        if exists|i: int|
            0 <= i < answers.len() && (#[trigger] answers[i]) is Ok && texts(
                answers[i]->Ok_0@,
            ).contains(x) {
            let i = choose|i: int|
                0 <= i < answers.len() && (#[trigger] answers[i]) is Ok && texts(
                    answers[i]->Ok_0@,
                ).contains(x);
            if i < last {
                assert(front[i] == answers[i]);
            }
        }
    }
}

proof fn lemma_sum_members(a: Seq<Seq<char>>, b: Seq<Seq<char>>, x: Seq<char>)
    ensures
        (a + b).contains(x) <==> a.contains(x) || b.contains(x),
{
    let s = a + b;
    if a.contains(x) {
        let i = choose|i: int| 0 <= i < a.len() && a[i] == x;
        assert(s[i] == x);
    }
    if b.contains(x) {
        let i = choose|i: int| 0 <= i < b.len() && b[i] == x;
        assert(s[a.len() + i] == x);
    }
    if s.contains(x) {
        let i = choose|i: int| 0 <= i < s.len() && s[i] == x;
        if i < a.len() {
            assert(a[i] == x);
        } else {
            assert(b[i - a.len()] == x);
        }
    }
}

/// A range can be reached if and only if a flag gives it, a host was looked up to it, or
/// egress is to this host and it is one of this host's two; those of the flags come first.
pub proof fn law_ranges_that_can_be_reached(
    allow_cidr: Seq<Seq<char>>,
    answers: Seq<Result<Vec<String>, String>>,
    localhost_only: bool,
    x: Seq<char>,
)
    requires
        forall|j: int| 0 <= j < answers.len() ==> (#[trigger] answers[j]) is Ok,
    ensures
        egress_ranges(allow_cidr, answers, localhost_only) is Ok,
        ({
            let all = egress_ranges(allow_cidr, answers, localhost_only)->Ok_0;
            &&& all.take(allow_cidr.len() as int) == allow_cidr
            &&& all.contains(x) <==> allow_cidr.contains(x) || (exists|i: int|
                0 <= i < answers.len() && texts((#[trigger] answers[i])->Ok_0@).contains(x)) || (
            localhost_only && (x == "127.0.0.0/8"@ || x == "::1/128"@))
        }),
{
    law_first_lookup_failure_is_told(answers, answers.len() as int);
    lemma_answered_members(answers, x);
    let of_hosts = answered(answers)->Ok_0;
    let own = if localhost_only {
        localhost_ranges()
    } else {
        Seq::empty()
    };
    let all = egress_ranges(allow_cidr, answers, localhost_only)->Ok_0;
    assert(all == allow_cidr + of_hosts + own);
    lemma_sum_members(allow_cidr, of_hosts, x);
    lemma_sum_members(allow_cidr + of_hosts, own, x);
    assert(all.take(allow_cidr.len() as int) =~= allow_cidr);
    let two = localhost_ranges();
    assert(two.contains(x) <==> x == "127.0.0.0/8"@ || x == "::1/128"@) by {
        assert(two[0] == "127.0.0.0/8"@ && two[1] == "::1/128"@);
    }
    if exists|i: int| 0 <= i < answers.len() && texts((#[trigger] answers[i])->Ok_0@).contains(x) {
        let i = choose|i: int|
            0 <= i < answers.len() && texts((#[trigger] answers[i])->Ok_0@).contains(x);
        assert(answers[i] is Ok);
    }
}

// ---------------------------------------------------------------------------
// Ports and durations
// ---------------------------------------------------------------------------

/// Every mapping of a host port to a guest port can be written, and is read as it was
/// written: the host's port first.
pub proof fn law_port_mapping_is_read_back(host: u16, guest: u16)
    ensures
        port_mapping(decimal(host as nat) + ":"@ + decimal(guest as nat)) == Some((host, guest)),
{
    reveal_strlit(":");
    assert(":"@ =~= seq![':']);
    let h = decimal(host as nat);
    let g = decimal(guest as nat);
    let s = h + ":"@ + g;
    lemma_numeral_chars(host as nat, 10);
    assert(!h.contains(':')) by {
        if h.contains(':') {
            let i = choose|i: int| 0 <= i < h.len() && h[i] == ':';
            assert(is_digit_char(h[i]));
        }
    }
    law_split_first(s, ':', h, g);
    lemma_parse_numeral(host as nat, 10, u16::MAX as nat);
    lemma_parse_numeral(guest as nat, 10, u16::MAX as nat);
}

/// What has no colon is no mapping.
pub proof fn law_mapping_has_two_ports(s: Seq<char>)
    requires
        !s.contains(':'),
    ensures
        port_mapping(s) is None,
{
}

/// A number with a unit means so many seconds, minutes or hours; without a unit it means
/// nothing.
pub proof fn law_durations(n: u32)
    ensures
        duration_millis(decimal(n as nat) + "s"@) == Some((n * 1000) as nat),
        duration_millis(decimal(n as nat) + "m"@) == Some((n * 60 * 1000) as nat),
        duration_millis(decimal(n as nat) + "h"@) == Some((n * 60 * 60 * 1000) as nat),
        duration_millis(decimal(n as nat)) is None,
{
    reveal_strlit("s");
    reveal_strlit("m");
    reveal_strlit("h");
    let d = decimal(n as nat);
    lemma_parse_numeral(n as nat, 10, u32::MAX as nat);
    lemma_numeral_value(n as nat, 10);
    lemma_numeral_chars(n as nat, 10);
    assert((d + "s"@).drop_last() =~= d);
    assert((d + "m"@).drop_last() =~= d);
    assert((d + "h"@).drop_last() =~= d);
    assert(unit_millis('s') == 1000 && unit_millis('m') == 60_000 && unit_millis('h') == 3_600_000);
    assert(n * 60 * 1000 == n * 60_000);
    assert(n * 60 * 60 * 1000 == n * 3_600_000);
    assert((d + "s"@).last() == 's');
    assert((d + "m"@).last() == 'm');
    assert((d + "h"@).last() == 'h');
    assert(is_digit_char(d[d.len() - 1]));
}

// ---------------------------------------------------------------------------
// Sockets
// ---------------------------------------------------------------------------

/// A guest socket is exposed as `GUEST[:HOST]`: the host path is what stands behind the
/// first colon, if anything does.
pub proof fn law_exposed_socket(guest: Seq<char>, host: Seq<char>)
    requires
        guest.len() > 0,
        !guest.contains(':'),
    ensures
        host.len() > 0 ==> exposed(guest + ":"@ + host) == Ok::<
            SocketModel,
            (Seq<char>, Seq<char>),
        >(
            SocketModel {
                direction: SocketDirection::Expose,
                guest_path: guest,
                host_path: Some(host),
            },
        ),
        exposed(guest) == Ok::<SocketModel, (Seq<char>, Seq<char>)>(
            SocketModel {
                direction: SocketDirection::Expose,
                guest_path: guest,
                host_path: None,
            },
        ),
        exposed(guest + ":"@) == exposed(guest),
        exposed(":"@ + host) is Err,
{
    reveal_strlit(":");
    assert(":"@ =~= seq![':']);
    let none = Seq::<char>::empty();
    law_split_first(guest + ":"@ + host, ':', guest, host);
    law_split_first(guest, ':', none, none);
    assert(guest + ":"@ =~= guest + seq![':'] + none);
    law_split_first(guest + ":"@, ':', guest, none);
    assert(":"@ + host =~= none + seq![':'] + host);
    law_split_first(":"@ + host, ':', none, host);
}

/// A host socket is mounted as `HOST:GUEST`, with both paths.
pub proof fn law_mounted_socket(host: Seq<char>, guest: Seq<char>)
    requires
        !host.contains(':'),
    ensures
        host.len() > 0 && guest.len() > 0 ==> mounted(host + ":"@ + guest) == Ok::<
            SocketModel,
            (Seq<char>, Seq<char>),
        >(
            SocketModel {
                direction: SocketDirection::Mount,
                guest_path: guest,
                host_path: Some(host),
            },
        ),
        host.len() == 0 || guest.len() == 0 ==> mounted(host + ":"@ + guest) is Err,
        mounted(host) is Err,
{
    reveal_strlit(":");
    assert(":"@ =~= seq![':']);
    law_split_first(host + ":"@ + guest, ':', host, guest);
    law_split_first(host, ':', Seq::empty(), Seq::empty());
}

/// A list of sockets is refused for the first guest path with a character that cannot be
/// handed on, and for no other.
pub proof fn law_first_unencodable_path(sockets: Seq<SocketModel>)
    ensures
        first_unencodable(sockets) is None <==> forall|i: int|
            0 <= i < sockets.len() ==> !(#[trigger] sockets[i]).guest_path.contains(';')
                && !sockets[i].guest_path.contains('|'),
        first_unencodable(sockets) matches Some(p) ==> exists|i: int|
            0 <= i < sockets.len() && (#[trigger] sockets[i]).guest_path == p && (p.contains(';')
                || p.contains('|')),
    decreases sockets.len(),
{
    if sockets.len() > 0 {
        let front = sockets.drop_last();
        let last = sockets.len() - 1;
        law_first_unencodable_path(front);
        assert(sockets.last() == sockets[last]);
        if first_unencodable(front) is Some {
            let p = first_unencodable(front)->Some_0;
            let i = choose|i: int|
                0 <= i < front.len() && (#[trigger] front[i]).guest_path == p && (p.contains(';')
                    || p.contains('|'));
            assert(sockets[i] == front[i]);
        } else {
            assert forall|i: int| 0 <= i < last implies !(#[trigger] sockets[i]).guest_path.contains(
                ';',
            ) && !sockets[i].guest_path.contains('|') by {
                assert(sockets[i] == front[i]);
            }
        }
    }
}

/// Flags for sockets are accepted where each can be read, there are no more than `max`, and
/// no guest path has a character that cannot be handed on.
pub proof fn law_accepted_sockets(expose: Seq<Seq<char>>, mount: Seq<Seq<char>>, max: int)
    requires
        forall|i: int| 0 <= i < expose.len() ==> exposed(#[trigger] expose[i]) is Ok,
        forall|i: int| 0 <= i < mount.len() ==> mounted(#[trigger] mount[i]) is Ok,
        expose.len() + mount.len() <= max,
        forall|i: int|
            0 <= i < expose.len() ==> !exposed(#[trigger] expose[i])->Ok_0.guest_path.contains(';')
                && !exposed(expose[i])->Ok_0.guest_path.contains('|'),
        forall|i: int|
            0 <= i < mount.len() ==> !mounted(#[trigger] mount[i])->Ok_0.guest_path.contains(';')
                && !mounted(mount[i])->Ok_0.guest_path.contains('|'),
    ensures
        published_sockets(expose, mount, max) is Ok,
{
    lemma_flags_read(Seq::empty(), SocketDirection::Expose, expose);
    let front = socket_flags(Seq::empty(), SocketDirection::Expose, expose)->Ok_0;
    lemma_flags_read(front, SocketDirection::Mount, mount);
    let all = socket_flags(front, SocketDirection::Mount, mount)->Ok_0;
    law_first_unencodable_path(all);
    assert forall|i: int| 0 <= i < all.len() implies !(#[trigger] all[i]).guest_path.contains(';')
        && !all[i].guest_path.contains('|') by {
        if i < front.len() {
            assert(all[i] == front[i]);
            assert(exposed(expose[i]) is Ok);
        } else {
            let j = i - front.len();
            assert(mounted(mount[j]) is Ok);
        }
    }
}

proof fn lemma_flags_read(
    before: Seq<SocketModel>,
    direction: SocketDirection,
    specs: Seq<Seq<char>>,
)
    requires
        forall|i: int| 0 <= i < specs.len() ==> socket_flag(direction, #[trigger] specs[i]) is Ok,
    ensures
        socket_flags(before, direction, specs) is Ok,
        ({
            let all = socket_flags(before, direction, specs)->Ok_0;
            &&& all.len() == before.len() + specs.len()
            &&& forall|i: int| 0 <= i < before.len() ==> #[trigger] all[i] == before[i]
            &&& forall|i: int|
                before.len() <= i < all.len() ==> #[trigger] all[i] == socket_flag(
                    direction,
                    specs[i - before.len()],
                )->Ok_0
        }),
    decreases specs.len(),
{
    if specs.len() > 0 {
        let front = specs.drop_last();
        assert forall|i: int| 0 <= i < front.len() implies socket_flag(
            direction,
            #[trigger] front[i],
        ) is Ok by {
            assert(front[i] == specs[i]);
        }
        lemma_flags_read(before, direction, front);
        assert(specs.last() == specs[specs.len() - 1]);
        assert(socket_flag(direction, specs[specs.len() - 1]) is Ok);
        let shorter = socket_flags(before, direction, front)->Ok_0;
        let all = socket_flags(before, direction, specs)->Ok_0;
        assert forall|i: int| before.len() <= i < all.len() implies #[trigger] all[i]
            == socket_flag(direction, specs[i - before.len()])->Ok_0 by {
            if i < shorter.len() {
                assert(all[i] == shorter[i]);
                assert(front[i - before.len()] == specs[i - before.len()]);
            }
        }
    }
}

// ---------------------------------------------------------------------------
// Secrets
// ---------------------------------------------------------------------------

/// A flag for a secret is `KEY=VALUE`: it is a variable or a file of the host, never the
/// value itself, and it is known under its key; every other secret stays as it is.
pub proof fn law_secret_of_a_flag(
    known: Map<Seq<char>, SecretModel>,
    key: Seq<char>,
    value: Seq<char>,
)
    requires
        key.len() > 0,
        !key.contains('='),
        !known.contains_key(key),
    ensures
        secret_added(known, SecretFlag::FromEnv, key + "="@ + value) == Ok::<
            Map<Seq<char>, SecretModel>,
            (Seq<char>, Seq<char>),
        >(known.insert(key, SecretModel { from_env: Some(value), from_file: None })),
        value.len() > 0 && value[0] == '/' ==> secret_added(
            known,
            SecretFlag::FromFile,
            key + "="@ + value,
        ) == Ok::<Map<Seq<char>, SecretModel>, (Seq<char>, Seq<char>)>(
            known.insert(key, SecretModel { from_env: None, from_file: Some(value) }),
        ),
        value.len() == 0 || value[0] != '/' ==> secret_added(
            known,
            SecretFlag::FromFile,
            key + "="@ + value,
        ) is Err,
{
    reveal_strlit("=");
    assert("="@ =~= seq!['=']);
    law_split_first(key + "="@ + value, '=', key, value);
}

/// A flag for a secret without `=`, without a key, or with a key that is known already is
/// refused.
pub proof fn law_refused_secrets(
    known: Map<Seq<char>, SecretModel>,
    flag: SecretFlag,
    spec: Seq<char>,
    key: Seq<char>,
)
    ensures
        !spec.contains('=') ==> secret_added(known, flag, spec) is Err,
        spec.contains('=') && spec[0] == '=' ==> secret_added(known, flag, spec) is Err,
        known.contains_key(key) && !key.contains('=') ==> secret_added(
            known,
            flag,
            key + "="@ + spec,
        ) is Err,
{
    reveal_strlit("=");
    assert("="@ =~= seq!['=']);
    let none = Seq::<char>::empty();
    if spec.contains('=') && spec[0] == '=' {
        assert(spec =~= none + seq!['='] + spec.skip(1));
        law_split_first(spec, '=', none, spec.skip(1));
    }
    law_split_first(key + "="@ + spec, '=', key, spec);
}

proof fn lemma_only_flags(
    known: Map<Seq<char>, SecretModel>,
    flag: SecretFlag,
    specs: Seq<Seq<char>>,
    k: Seq<char>,
)
    requires
        secrets_added(known, flag, specs) is Ok,
        secrets_added(known, flag, specs)->Ok_0.contains_key(k),
        !known.contains_key(k),
    ensures
        exists|i: int| 0 <= i < specs.len() && sets_key(#[trigger] specs[i], k),
    decreases specs.len(),
{
    if specs.len() > 0 {
        let front = specs.drop_last();
        let before = secrets_added(known, flag, front)->Ok_0;
        let last = specs.len() - 1;
        if before.contains_key(k) {
            lemma_only_flags(known, flag, front, k);
            let i = choose|i: int| 0 <= i < front.len() && sets_key(#[trigger] front[i], k);
            assert(specs[i] == front[i]);
        } else {
            let (key, value) = split_first(specs.last(), '=')->Some_0;
            law_split_first(specs.last(), '=', key, value);
            assert(specs[last].take(k.len() as int) =~= k);
            assert(sets_key(specs[last], k));
        }
    }
}

/// A machine has no secret but those that its flags name.
pub proof fn law_no_other_secrets(env: Seq<Seq<char>>, file: Seq<Seq<char>>, k: Seq<char>)
    requires
        secret_refs(env, file) is Ok,
        secret_refs(env, file)->Ok_0.contains_key(k),
    ensures
        (exists|i: int| 0 <= i < env.len() && sets_key(#[trigger] env[i], k)) || (exists|i: int|
            0 <= i < file.len() && sets_key(#[trigger] file[i], k)),
{
    let first = secrets_added(Map::empty(), SecretFlag::FromEnv, env)->Ok_0;
    if first.contains_key(k) {
        lemma_only_flags(Map::empty(), SecretFlag::FromEnv, env, k);
    } else {
        lemma_only_flags(first, SecretFlag::FromFile, file, k);
    }
}

} // verus!
