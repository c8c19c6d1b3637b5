//! The commands of the command-line tool and what they decide.

pub mod dump;
pub mod list;
pub mod simulate_sampler_button;
pub mod update_channel;
pub mod update_soundpad;
pub mod watch;

use crate::manager::DeviceIdentifier;
use crate::protocol::types::composite::{Composite, SpecComposite};
use simulate_sampler_button::SimulateSamplerButtonArguments;
use update_channel::UpdateChannelArguments;
use update_soundpad::UpdateSoundpadCommandArguments;
use vstd::prelude::*;
use vstd::string::StrSliceExecFns;

verus! {

/// A command of the tool.
#[derive(Debug)]
pub enum Command {
    /// Dumps the current internal state of the device.
    Dump,
    /// Lists all connected supported RØDECaster devices.
    List,
    /// Watches device communication.
    Watch,
    /// Updates the state of a channel.
    UpdateChannel(UpdateChannelArguments),
    /// Presses or releases a sampler button.
    SimulateSamplerButton(SimulateSamplerButtonArguments),
    /// Sets whether a sound pad loops.
    UpdateSoundpad(UpdateSoundpadCommandArguments),
}

/// `needle` occurs in `haystack`.
pub open spec fn spec_contains_text(haystack: Seq<char>, needle: Seq<char>) -> bool {
    exists|i: int| 0 <= i && i + needle.len() <= haystack.len() && #[trigger] haystack.subrange(i, i + needle.len()) == needle
}

/// Whether `needle` occurs in `haystack`.
pub fn contains_text(haystack: &str, needle: &str) -> (r: bool)
    ensures
        r == spec_contains_text(haystack@, needle@),
{
    let h = haystack.unicode_len();
    let n = needle.unicode_len();
    if n > h {
        proof {
            assert forall|i: int| 0 <= i && i + needle@.len() <= haystack@.len() implies #[trigger] haystack@.subrange(i, i + needle@.len()) != needle@ by {}
        }
        return false;
    }
    let mut i: usize = 0;
    while i <= h - n
        invariant
            h == haystack@.len(),
            n == needle@.len(),
            n <= h,
            i <= h - n + 1,
            forall|k: int| 0 <= k < i ==> #[trigger] haystack@.subrange(k, k + n) != needle@,
        decreases h - n + 1 - i,
    {
        let mut j: usize = 0;
        let mut same = true;
        while j < n
            invariant
                h == haystack@.len(),
                n == needle@.len(),
                i + n <= h,
                j <= n,
                same == (forall|m: int| 0 <= m < j ==> haystack@[i + m] == needle@[m]),
            decreases n - j,
        {
            if haystack.get_char(i + j) != needle.get_char(j) {
                same = false;
            }
            j = j + 1;
        }
        if same {
            proof {
                assert(haystack@.subrange(i as int, i + n) =~= needle@);
            }
            return true;
        }
        proof {
            let m = choose|m: int| 0 <= m < n && haystack@[i + m] != needle@[m];
            assert(haystack@.subrange(i as int, i + n)[m] != needle@[m]);
        }
        i = i + 1;
    }
    proof {
        assert forall|k: int| 0 <= k && k + needle@.len() <= haystack@.len() implies #[trigger] haystack@.subrange(k, k + needle@.len()) != needle@ by {
            assert(k < i);
        }
    }
    false
}

/// The index of the first state object whose name holds `pattern`. Its definition is opaque;
/// [`lemma_position_is_first_match`] and [`lemma_position_none`] say what it is.
#[verifier::opaque]
pub open spec fn spec_position(cs: Seq<SpecComposite>, pattern: Seq<char>) -> Option<usize> {
    if exists|i: int| 0 <= i < cs.len() && spec_contains_text(cs[i].name, pattern) {
        let i = choose|i: int|
            0 <= i < cs.len() && spec_contains_text(cs[i].name, pattern) && forall|k: int|
                0 <= k < i ==> !spec_contains_text(#[trigger] cs[k].name, pattern);
        Some(i as usize)
    } else {
        None
    }
}

/// The position is the first index whose name holds the pattern.
pub proof fn lemma_position_is_first_match(cs: Seq<SpecComposite>, pattern: Seq<char>, i: int)
    requires
        0 <= i < cs.len(),
        i <= usize::MAX,
        spec_contains_text(cs[i].name, pattern),
        forall|k: int| 0 <= k < i ==> !spec_contains_text(#[trigger] cs[k].name, pattern),
    ensures
        spec_position(cs, pattern) == Some(i as usize),
{
    reveal(spec_position);
    let j = choose|j: int|
        0 <= j < cs.len() && spec_contains_text(cs[j].name, pattern) && forall|k: int|
            0 <= k < j ==> !spec_contains_text(#[trigger] cs[k].name, pattern);
    if j < i {
        assert(!spec_contains_text(cs[j].name, pattern));
    }
    if i < j {
        assert(!spec_contains_text(cs[i].name, pattern));
    }
}

/// Without a name that holds the pattern there is no position.
pub proof fn lemma_position_none(cs: Seq<SpecComposite>, pattern: Seq<char>)
    requires
        forall|k: int| 0 <= k < cs.len() ==> !spec_contains_text(#[trigger] cs[k].name, pattern),
    ensures
        spec_position(cs, pattern) is None,
{
    reveal(spec_position);
}

/// `i` is the first index of `cs` whose name holds `pattern`.
pub open spec fn first_match(cs: Seq<SpecComposite>, pattern: Seq<char>, i: int) -> bool {
    &&& 0 <= i < cs.len()
    &&& spec_contains_text(cs[i].name, pattern)
    &&& forall|k: int| 0 <= k < i ==> !spec_contains_text(#[trigger] cs[k].name, pattern)
}

/// Where some name among the first `n` holds the pattern, there is a first such name.
proof fn lemma_first_match_exists(cs: Seq<SpecComposite>, pattern: Seq<char>, n: int)
    requires
        0 <= n <= cs.len(),
        exists|i: int| 0 <= i < n && spec_contains_text(#[trigger] cs[i].name, pattern),
    ensures
        exists|i: int| first_match(cs, pattern, i),
    decreases n,
{
    if exists|i: int| 0 <= i < n - 1 && spec_contains_text(#[trigger] cs[i].name, pattern) {
        lemma_first_match_exists(cs, pattern, n - 1);
    } else {
        assert(first_match(cs, pattern, n - 1));
    }
}

/// The position is the first index whose name holds the pattern, and there is none where no
/// name holds it.
pub proof fn lemma_position_first(cs: Seq<SpecComposite>, pattern: Seq<char>)
    requires
        cs.len() <= usize::MAX,
    ensures
        match spec_position(cs, pattern) {
            Some(i) => first_match(cs, pattern, i as int),
            None => forall|k: int| 0 <= k < cs.len() ==> !spec_contains_text(#[trigger] cs[k].name, pattern),
        },
{
    if exists|i: int| 0 <= i < cs.len() && spec_contains_text(#[trigger] cs[i].name, pattern) {
        lemma_first_match_exists(cs, pattern, cs.len() as int);
        let i = choose|i: int| first_match(cs, pattern, i);
        lemma_position_is_first_match(cs, pattern, i);
    } else {
        lemma_position_none(cs, pattern);
    }
}

/// The index of the first object of `children` whose name holds `pattern`.
pub fn position_of_child(children: &Vec<Composite>, pattern: &str) -> (r: Option<usize>)
    ensures
        match r {
            Some(i) => i < children@.len() && spec_contains_text(children@[i as int].name@, pattern@)
                && forall|k: int| 0 <= k < i ==> !spec_contains_text(#[trigger] children@[k].name@, pattern@),
            None => forall|k: int| 0 <= k < children@.len() ==> !spec_contains_text(#[trigger] children@[k].name@, pattern@),
        },
{
    let mut i: usize = 0;
    while i < children.len()
        invariant
            i <= children@.len(),
            forall|k: int| 0 <= k < i ==> !spec_contains_text(#[trigger] children@[k].name@, pattern@),
        decreases children@.len() - i,
    {
        if contains_text(children[i].name.as_str(), pattern) {
            return Some(i);
        }
        i = i + 1;
    }
    None
}

/// Whether a device is the one asked for: any device where no serial number is given, else
/// the device with that serial number.
pub open spec fn spec_selected(d: DeviceIdentifier, serial: Option<Seq<char>>) -> bool {
    match serial {
        None => true,
        Some(s) => d.serial_number@ == s,
    }
}

/// The index of the first device that matches the serial number asked for (any device where
/// none is given).
pub fn select_device(devices: &Vec<DeviceIdentifier>, serial: &Option<String>) -> (r: Option<usize>)
    ensures
        match r {
            Some(i) => i < devices@.len() && spec_selected(devices@[i as int], serial_view(*serial))
                && forall|k: int| 0 <= k < i ==> !spec_selected(#[trigger] devices@[k], serial_view(*serial)),
            None => forall|k: int| 0 <= k < devices@.len() ==> !spec_selected(#[trigger] devices@[k], serial_view(*serial)),
        },
        serial is None ==> r == if devices@.len() > 0 { Some(0usize) } else { None::<usize> },
        serial matches Some(s) ==> match r {
            Some(i) => devices@[i as int].serial_number@ == s@ && forall|k: int|
                0 <= k < i ==> (#[trigger] devices@[k]).serial_number@ != s@,
            None => forall|k: int| 0 <= k < devices@.len() ==> (#[trigger] devices@[k]).serial_number@ != s@,
        },
{
    let mut i: usize = 0;
    while i < devices.len()
        invariant
            i <= devices@.len(),
            forall|k: int| 0 <= k < i ==> !spec_selected(#[trigger] devices@[k], serial_view(*serial)),
        decreases devices@.len() - i,
    {
        let matches = match serial {
            None => true,
            Some(s) => devices[i].serial_number == *s,
        };
        if matches {
            proof {
                if serial is None && i > 0 {
                    assert(spec_selected(devices@[0], serial_view(*serial)));
                }
            }
            return Some(i);
        }
        i = i + 1;
    }
    proof {
        if serial is None && devices@.len() > 0 {
            assert(spec_selected(devices@[0], serial_view(*serial)));
        }
    }
    None
}

/// The view of an optional serial number.
pub open spec fn serial_view(s: Option<String>) -> Option<Seq<char>> {
    match s {
        Some(t) => Some(t@),
        None => None,
    }
}

} // verus!
