//! What the settings of the daemon mean.
use crate::daemon::policy::{
    available_kib, available_kib_of_line, setting_number, sharing_disabled, snapshot_fits, switch,
};
use crate::daemon::status::{StatusAction, parse_status, status_action, status_socket};
use crate::numerals::{
    decimal, is_digit_char, lemma_numeral_chars, lemma_numeral_value, lemma_parse_numeral,
    parse_number, parse_signed,
};
use crate::paths::joined;
use crate::split::{is_space, lines, trim, words};
use crate::text::ascii_lower;
use vstd::prelude::*;

verus! {

proof fn lemma_plain_word(w: Seq<char>)
    requires
        forall|i: int| 0 <= i < w.len() ==> !is_space(#[trigger] w[i]) && !('A' <= w[i] <= 'Z'),
    ensures
        ascii_lower(trim(w)) == w,
{
    if w.len() > 0 {
        assert(!is_space(w[0]));
        assert(!is_space(w[w.len() - 1]));
    }
    assert(trim(w) == w);
    assert(ascii_lower(w) =~= w);
}

/// A switch is off with `0`, `off`, `false` or `no`, and on with `1`, `on`, `true`, `yes`
/// or `force`.
pub proof fn law_words_of_a_switch()
    ensures
        switch(None) is None,
        switch(Some("0"@)) == Some(false) && switch(Some("off"@)) == Some(false),
        switch(Some("false"@)) == Some(false) && switch(Some("no"@)) == Some(false),
        switch(Some("1"@)) == Some(true) && switch(Some("on"@)) == Some(true),
        switch(Some("true"@)) == Some(true) && switch(Some("yes"@)) == Some(true),
        switch(Some("force"@)) == Some(true),
{
    reveal_strlit("0");
    reveal_strlit("off");
    reveal_strlit("false");
    reveal_strlit("no");
    reveal_strlit("1");
    reveal_strlit("on");
    reveal_strlit("true");
    reveal_strlit("yes");
    reveal_strlit("force");
    lemma_plain_word("0"@);
    lemma_plain_word("off"@);
    lemma_plain_word("false"@);
    lemma_plain_word("no"@);
    lemma_plain_word("1"@);
    lemma_plain_word("on"@);
    lemma_plain_word("true"@);
    lemma_plain_word("yes"@);
    lemma_plain_word("force"@);
    assert("1"@[0] != "0"@[0]);
    assert("on"@.len() == 2 && "off"@.len() == 3 && "false"@.len() == 5 && "no"@.len() == 2
        && "0"@.len() == 1);
    assert("on"@[0] != "no"@[0]);
    assert("true"@.len() == 4);
    assert("yes"@[0] != "off"@[0]);
    assert("force"@[1] != "false"@[1]);
}

/// A switch does not care for capitals or for white space round it.
pub proof fn law_switch_is_lenient(a: Seq<char>, b: Seq<char>)
    requires
        ascii_lower(trim(a)) == ascii_lower(trim(b)),
    ensures
        switch(Some(a)) == switch(Some(b)),
{
}

/// Some line before `i` says how much memory is available.
pub open spec fn said_before(all: Seq<Seq<char>>, i: int) -> bool {
    exists|j: int|
        0 <= j < i && words(#[trigger] all[j]).len() >= 2 && words(all[j])[0] == "MemAvailable:"@
}

proof fn lemma_first_said(all: Seq<Seq<char>>, i: int, kib: nat)
    requires
        0 <= i < all.len(),
        !said_before(all, i),
        words(all[i]).len() >= 2,
        words(all[i])[0] == "MemAvailable:"@,
        parse_number(words(all[i])[1], 10, u64::MAX as nat) == Some(kib),
    ensures
        available_kib(all) == Some(kib),
    decreases i,
{
    if i > 0 {
        let rest = all.skip(1);
        assert(available_kib_of_line(all[0]) is None) by {
            if words(all[0]).len() >= 2 && words(all[0])[0] == "MemAvailable:"@ {
                assert(said_before(all, i));
            }
        }
        assert(rest[i - 1] == all[i]);
        assert(!said_before(rest, i - 1)) by {
            if said_before(rest, i - 1) {
                let j = choose|j: int|
                    0 <= j < i - 1 && words(#[trigger] rest[j]).len() >= 2 && words(rest[j])[0]
                        == "MemAvailable:"@;
                assert(all[j + 1] == rest[j]);
            }
        }
        lemma_first_said(rest, i - 1, kib);
    }
}

/// A snapshot fits if what the host says is available holds it and leaves a reserve: a
/// quarter of it, and at least a gibibyte.
pub proof fn law_snapshot_leaves_a_reserve(required: u64, meminfo: Seq<char>, i: int, kib: nat)
    requires
        0 <= i < lines(meminfo).len(),
        !said_before(lines(meminfo), i),
        words(lines(meminfo)[i]).len() >= 2,
        words(lines(meminfo)[i])[0] == "MemAvailable:"@,
        parse_number(words(lines(meminfo)[i])[1], 10, u64::MAX as nat) == Some(kib),
        kib * 1024 <= u64::MAX,
    ensures
        snapshot_fits(required, meminfo) <==> required + required / 4 <= kib * 1024 && required
            + 1024 * 1024 * 1024 <= kib * 1024,
{
    lemma_first_said(lines(meminfo), i, kib);
}

/// Where the host does not say what is available, nothing fits.
pub proof fn law_unknown_memory_holds_nothing(required: u64, meminfo: Seq<char>)
    requires
        !said_before(lines(meminfo), lines(meminfo).len() as int),
    ensures
        !snapshot_fits(required, meminfo),
{
    lemma_never_said(lines(meminfo));
}

proof fn lemma_never_said(all: Seq<Seq<char>>)
    requires
        !said_before(all, all.len() as int),
    ensures
        available_kib(all) is None,
    decreases all.len(),
{
    if all.len() > 0 {
        let rest = all.skip(1);
        assert(available_kib_of_line(all[0]) is None) by {
            if words(all[0]).len() >= 2 && words(all[0])[0] == "MemAvailable:"@ {
                assert(said_before(all, all.len() as int));
            }
        }
        assert(!said_before(rest, rest.len() as int)) by {
            if said_before(rest, rest.len() as int) {
                let j = choose|j: int|
                    0 <= j < rest.len() && words(#[trigger] rest[j]).len() >= 2 && words(rest[j])[0]
                        == "MemAvailable:"@;
                assert(all[j + 1] == rest[j]);
            }
        }
        lemma_never_said(rest);
    }
}

/// Sharing is switched off by `0`, `false` and `off`, and by nothing else.
pub proof fn law_sharing_switch(configured: Option<Seq<char>>)
    ensures
        sharing_disabled(configured) <==> configured is Some && (configured->Some_0 == "0"@
            || configured->Some_0 == "false"@ || configured->Some_0 == "off"@),
{
}

/// A record that a worker left is removed if nothing can be read from it, or if it is a
/// temporary one over a minute old; the daemon's own is kept, and one that can be read as
/// long as its process lives.
pub proof fn law_records_that_are_kept(
    name: Seq<char>,
    age_secs: Option<u64>,
    content: Option<Seq<char>>,
)
    ensures
        name == "daemon.capability"@ ==> status_action(name, age_secs, content)
            == StatusAction::Keep,
        name != "daemon.capability"@ && name.len() > 0 && name[0] == '.' ==> (status_action(
            name,
            age_secs,
            content,
        ) == if age_secs is Some && age_secs->Some_0 >= 60 {
            StatusAction::Remove
        } else {
            StatusAction::Keep
        }),
        name != "daemon.capability"@ && (name.len() == 0 || name[0] != '.') && (content is None
            || parse_status(content->Some_0) is None || parse_signed(name) is None)
            ==> status_action(name, age_secs, content) == StatusAction::Remove,
        name != "daemon.capability"@ && (name.len() == 0 || name[0] != '.') && content is Some
            && parse_status(content->Some_0) is Some && parse_signed(name) is Some
            ==> status_action(name, age_secs, content) == StatusAction::KeepIfAlive(
            parse_signed(name)->Some_0 as i32,
            parse_status(content->Some_0)->Some_0.0,
        ),
{
}

/// The socket that a worker reports to is the first of those given that is named from the
/// root, the inherited one before the configured one; else the usual one.
pub proof fn law_socket_of_a_worker(
    inherited: Option<Seq<char>>,
    configured: Option<Seq<char>>,
    default: Seq<char>,
)
    ensures
        ({
            let a = inherited is Some && inherited->Some_0.len() > 0 && inherited->Some_0[0] == '/';
            let b = configured is Some && configured->Some_0.len() > 0 && configured->Some_0[0]
                == '/';
            let r = status_socket(inherited, configured, default);
            &&& a ==> r == inherited->Some_0
            &&& !a && b ==> r == configured->Some_0
            &&& !a && !b ==> r == default
        }),
{
}

/// A name below a directory is the two with one slash between them.
pub proof fn law_name_below_a_directory(dir: Seq<char>, name: Seq<char>)
    ensures
        dir.len() > 0 && dir.last() != '/' ==> joined(dir, name) == dir + "/"@ + name,
        dir.len() > 0 && dir.last() == '/' ==> joined(dir, name) == dir + name,
        dir.len() == 0 ==> joined(dir, name) == name,
{
    reveal_strlit("/");
    assert(dir + "/"@ =~= dir.push('/'));
    if dir.len() == 0 {
        assert(dir + name =~= name);
    }
}

/// A setting is the number that it writes; one that is not given, or writes none, is none.
pub proof fn law_numbers_of_settings(n: u64)
    ensures
        setting_number(Some(decimal(n as nat))) == Some(n as nat),
        setting_number(None) is None,
        setting_number(Some(Seq::empty())) is None,
{
    let d = decimal(n as nat);
    lemma_numeral_chars(n as nat, 10);
    lemma_numeral_value(n as nat, 10);
    lemma_parse_numeral(n as nat, 10, u64::MAX as nat);
    assert(is_digit_char(d[0]));
    assert(is_digit_char(d[d.len() - 1]));
    assert(trim(d) == d);
}

/// A word that is none of those leaves a switch as it is by default.
pub proof fn law_other_words_switch_nothing(text: Seq<char>)
    ensures
        ({
            let word = ascii_lower(trim(text));
            let off = word == "0"@ || word == "off"@ || word == "false"@ || word == "no"@;
            let on = word == "1"@ || word == "on"@ || word == "true"@ || word == "yes"@ || word
                == "force"@;
            &&& switch(Some(text)) is None <==> !off && !on
            &&& off ==> switch(Some(text)) == Some(false)
            &&& on && !off ==> switch(Some(text)) == Some(true)
        }),
{
}

} // verus!
