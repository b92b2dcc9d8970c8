//! The developer console: its history, command names, completion of what is
//! typed, and the reading of a submitted line.
use vstd::prelude::*;
use vstd::string::*;

use crate::timer::spec_tick;
use crate::timer::RepeatingTimer;
use crate::Money;

verus! {

/// A line of the console's history.
pub enum DevConsoleHistoryEntry {
    UserInput(String),
    CommandOutput(String),
}

/// Everything typed into the console and printed by it, oldest first.
pub struct DevConsoleHistory {
    pub history: Vec<DevConsoleHistoryEntry>,
}

/// The position of the last line the user typed among the first `n` lines.
pub open spec fn last_input_position(h: Seq<DevConsoleHistoryEntry>, n: int) -> Option<int>
    decreases n,
{
    if n <= 0 || n > h.len() {
        None
    } else if h[n - 1] is UserInput {
        Some(n - 1)
    } else {
        last_input_position(h, n - 1)
    }
}

impl DevConsoleHistory {
    /// An empty history.
    pub fn new() -> (h: Self)
        ensures
            h.history@.len() == 0,
    {
        DevConsoleHistory { history: Vec::new() }
    }

    /// Appends a line printed by a command.
    pub fn push_command_output(&mut self, output: String)
        ensures
            final(self).history@ == old(self).history@.push(
                DevConsoleHistoryEntry::CommandOutput(output),
            ),
    {
        self.history.push(DevConsoleHistoryEntry::CommandOutput(output));
    }

    /// Appends a line the user typed.
    pub fn push_user_input(&mut self, input: String)
        ensures
            final(self).history@ == old(self).history@.push(DevConsoleHistoryEntry::UserInput(input)),
    {
        self.history.push(DevConsoleHistoryEntry::UserInput(input));
    }

    /// The last line the user typed, if any.
    pub fn get_last_user_input(&self) -> (r: Option<&String>)
        ensures
            match last_input_position(self.history@, self.history@.len() as int) {
                Some(i) => r matches Some(s) && self.history@[i] == DevConsoleHistoryEntry::UserInput(
                    *s,
                ),
                None => r is None,
            },
    {
        let mut n: usize = self.history.len();
        while n > 0
            invariant
                0 <= n <= self.history@.len(),
                last_input_position(self.history@, self.history@.len() as int)
                    == last_input_position(self.history@, n as int),
            decreases n,
        {
            match &self.history[n - 1] {
                DevConsoleHistoryEntry::UserInput(s) => {
                    return Some(s);
                },
                DevConsoleHistoryEntry::CommandOutput(_) => {},
            }
            n = n - 1;
        }
        None
    }
}

// ---------------------------------------------------------------------------
// Common prefixes
// ---------------------------------------------------------------------------

/// Every string of `ms` has a character `c` at position `i`.
pub open spec fn all_have_at(ms: Seq<Seq<char>>, i: int, c: char) -> bool {
    forall|k: int| 0 <= k < ms.len() ==> i < (#[trigger] ms[k]).len() && ms[k][i] == c
}

/// Extends a common prefix of `ms`, known to be `first.take(i)`, character
/// by character along `first`: the length of the longest prefix of `first`
/// that every string of `ms` starts with.
pub open spec fn common_len_from(ms: Seq<Seq<char>>, first: Seq<char>, i: int) -> int
    decreases first.len() - i,
{
    if i < 0 || i >= first.len() {
        i
    } else if all_have_at(ms, i, first[i]) {
        common_len_from(ms, first, i + 1)
    } else {
        i
    }
}

/// The prefix used to complete a partly typed word from its candidates: the
/// longest prefix of the first candidate shared by all of them, one character
/// shorter when it is the whole first candidate (the first candidate's last
/// character is left for the user to type).
pub open spec fn spec_common_prefix(ms: Seq<Seq<char>>) -> Seq<char> {
    let first = ms[0];
    let l = common_len_from(ms, first, 0);
    first.take(
        if l == first.len() && first.len() > 0 {
            l - 1
        } else {
            l
        },
    )
}

/// The views of a list of strings.
pub open spec fn views(v: Seq<String>) -> Seq<Seq<char>> {
    v.map_values(|s: String| s@)
}

/// The completion prefix of a non-empty list of candidates (see `spec_common_prefix`).
pub fn common_prefix(matches: &Vec<String>) -> (r: String)
    requires
        matches@.len() > 0,
    ensures
        r@ == spec_common_prefix(views(matches@)),
{
    let ghost ms = views(matches@);
    let first: &str = matches[0].as_str();
    let first_len = first.unicode_len();
    let mut i: usize = 0;
    let mut done = false;
    while i < first_len && !done
        invariant
            0 <= i <= first_len,
            first_len == first@.len(),
            first@ == ms[0],
            ms == views(matches@),
            done ==> common_len_from(ms, first@, 0) == i,
            !done ==> common_len_from(ms, first@, 0) == common_len_from(ms, first@, i as int),
        decreases first_len - i + if done {
            0int
        } else {
            1int
        },
    {
        let c = first.get_char(i);
        let mut all = true;
        let mut k: usize = 0;
        while k < matches.len()
            invariant
                0 <= k <= matches@.len(),
                i < first_len,
                ms == views(matches@),
                all == forall|j: int| 0 <= j < k ==> i < (#[trigger] ms[j]).len() && ms[j][i as int] == c,
            decreases matches@.len() - k,
        {
            let m: &str = matches[k].as_str();
            assert(ms[k as int] == m@);
            let ok = i < m.unicode_len() && m.get_char(i) == c;
            assert(ok == (i < ms[k as int].len() && ms[k as int][i as int] == c));
            if !ok {
                all = false;
            }
            k = k + 1;
        }
        if all {
            assert(all_have_at(ms, i as int, c));
            i = i + 1;
        } else {
            assert(!all_have_at(ms, i as int, c));
            done = true;
        }
    }
    let n = if i == first_len && first_len > 0 {
        i - 1
    } else {
        i
    };
    let r = String::from_str(first.substring_char(0, n));
    proof {
        assert(first@.subrange(0, n as int) == first@.take(n as int));
    }
    r
}

/// What `common_prefix` returns is a prefix of every candidate, and no longer
/// prefix of the first candidate is shared by all of them, except where the
/// whole first candidate is shared (it is then one character short).
pub proof fn lemma_common_prefix_is_shared(ms: Seq<Seq<char>>)
    requires
        ms.len() > 0,
    ensures
        ({
            let r = spec_common_prefix(ms);
            let l = common_len_from(ms, ms[0], 0);
            &&& forall|k: int| 0 <= k < ms.len() ==> r.is_prefix_of(#[trigger] ms[k])
            &&& l < ms[0].len() ==> !all_have_at(ms, l, ms[0][l])
        }),
{
    let first = ms[0];
    lemma_common_len_from(ms, first, 0);
    let l = common_len_from(ms, first, 0);
    let r = spec_common_prefix(ms);
    assert forall|k: int| 0 <= k < ms.len() implies r.is_prefix_of(#[trigger] ms[k]) by {
        assert(first.take(l).is_prefix_of(ms[k]));
        assert forall|j: int| 0 <= j < r.len() implies r[j] == ms[k][j] by {
            assert(first.take(l)[j] == ms[k][j]);
        }
        assert(ms[k].take(r.len() as int) =~= r);
    }
}

proof fn lemma_common_len_from(ms: Seq<Seq<char>>, first: Seq<char>, i: int)
    requires
        0 <= i <= first.len(),
        forall|j: int| 0 <= j < i ==> all_have_at(ms, j, first[j]),
    ensures
        ({
            let l = common_len_from(ms, first, i);
            &&& i <= l <= first.len()
            &&& forall|j: int| 0 <= j < l ==> all_have_at(ms, j, first[j])
            &&& l < first.len() ==> !all_have_at(ms, l, first[l])
            &&& forall|k: int| 0 <= k < ms.len() ==> first.take(l).is_prefix_of(#[trigger] ms[k])
        }),
    decreases first.len() - i,
{
    if i < first.len() && all_have_at(ms, i, first[i]) {
        lemma_common_len_from(ms, first, i + 1);
    } else {
        let l = common_len_from(ms, first, i);
        assert(l == i);
        assert forall|k: int| 0 <= k < ms.len() implies first.take(l).is_prefix_of(#[trigger] ms[k]) by {
            if l > 0 {
                assert(all_have_at(ms, l - 1, first[l - 1]));
            }
            assert forall|j: int| 0 <= j < l implies first.take(l)[j] == ms[k][j] by {
                assert(all_have_at(ms, j, first[j]));
            }
            assert(ms[k].take(l) =~= first.take(l));
        }
    }
}

// ---------------------------------------------------------------------------
// Commands
// ---------------------------------------------------------------------------

pub const SET_SIM_TIME_SCALE_COMMAND: &'static str = "set_sim_time_scale";

pub const SPAWN_PET_COMMAND: &'static str = "spawn_pet";

pub const EVOLVE_PET_COMMAND: &'static str = "evolve_pet";

pub const SPAWN_FOOD_COMMAND: &'static str = "spawn_food";

pub const SPAWN_POOP_COMMAND: &'static str = "spawn_poop";

pub const CLEAR_ALL_PETS_COMMAND: &'static str = "clear_all_pets";

pub const CLEAR_ALL_FOODS_COMMAND: &'static str = "clear_all_foods";

pub const CHANGE_LANGUAGE_COMMAND: &'static str = "change_language";

pub const DISCOVER_COMPLETE_DIPDEX_COMMAND: &'static str = "discover_complete_dipdex";

pub const SPAWN_SPEWER_COMMAND: &'static str = "spawn_spewer";

pub const GIVE_MONEY_COMMAND: &'static str = "give_money";

/// A command of the developer console. The time scale is kept as typed; it
/// is read as a number where the command is carried out.
#[derive(Debug)]
pub enum DevConsoleCommand {
    SetSimTimeScale(String),
    SpawnPet(String),
    EvolvePet(String),
    SpawnFood(String),
    SpawnSpewer,
    SpawnPoop,
    ClearAllPets,
    ClearAllFoods,
    ChangeLanguage(String),
    DiscoverCompleteDipdex,
    GiveMoney(Money),
}

/// The names of the commands, in the order the commands are declared.
pub open spec fn spec_command_names() -> Seq<Seq<char>> {
    seq![
        "set_sim_time_scale"@,
        "spawn_pet"@,
        "evolve_pet"@,
        "spawn_food"@,
        "spawn_spewer"@,
        "spawn_poop"@,
        "clear_all_pets"@,
        "clear_all_foods"@,
        "change_language"@,
        "discover_complete_dipdex"@,
        "give_money"@,
    ]
}

impl DevConsoleCommand {
    /// The name a command is typed as.
    pub fn command_str(&self) -> (s: &'static str)
        ensures
            s@ == match self {
                DevConsoleCommand::SetSimTimeScale(_) => spec_command_names()[0],
                DevConsoleCommand::SpawnPet(_) => spec_command_names()[1],
                DevConsoleCommand::EvolvePet(_) => spec_command_names()[2],
                DevConsoleCommand::SpawnFood(_) => spec_command_names()[3],
                DevConsoleCommand::SpawnSpewer => spec_command_names()[4],
                DevConsoleCommand::SpawnPoop => spec_command_names()[5],
                DevConsoleCommand::ClearAllPets => spec_command_names()[6],
                DevConsoleCommand::ClearAllFoods => spec_command_names()[7],
                DevConsoleCommand::ChangeLanguage(_) => spec_command_names()[8],
                DevConsoleCommand::DiscoverCompleteDipdex => spec_command_names()[9],
                DevConsoleCommand::GiveMoney(_) => spec_command_names()[10],
            },
    {
        match self {
            DevConsoleCommand::SetSimTimeScale(_) => SET_SIM_TIME_SCALE_COMMAND,
            DevConsoleCommand::SpawnPet(_) => SPAWN_PET_COMMAND,
            DevConsoleCommand::EvolvePet(_) => EVOLVE_PET_COMMAND,
            DevConsoleCommand::SpawnFood(_) => SPAWN_FOOD_COMMAND,
            DevConsoleCommand::SpawnSpewer => SPAWN_SPEWER_COMMAND,
            DevConsoleCommand::SpawnPoop => SPAWN_POOP_COMMAND,
            DevConsoleCommand::ClearAllPets => CLEAR_ALL_PETS_COMMAND,
            DevConsoleCommand::ClearAllFoods => CLEAR_ALL_FOODS_COMMAND,
            DevConsoleCommand::ChangeLanguage(_) => CHANGE_LANGUAGE_COMMAND,
            DevConsoleCommand::DiscoverCompleteDipdex => DISCOVER_COMPLETE_DIPDEX_COMMAND,
            DevConsoleCommand::GiveMoney(_) => GIVE_MONEY_COMMAND,
        }
    }

    /// The names of all commands, in the order the commands are declared.
    pub fn commands() -> (r: Vec<String>)
        ensures
            views(r@) == spec_command_names(),
    {
        let mut r: Vec<String> = Vec::new();
        r.push(String::from_str(SET_SIM_TIME_SCALE_COMMAND));
        r.push(String::from_str(SPAWN_PET_COMMAND));
        r.push(String::from_str(EVOLVE_PET_COMMAND));
        r.push(String::from_str(SPAWN_FOOD_COMMAND));
        r.push(String::from_str(SPAWN_SPEWER_COMMAND));
        r.push(String::from_str(SPAWN_POOP_COMMAND));
        r.push(String::from_str(CLEAR_ALL_PETS_COMMAND));
        r.push(String::from_str(CLEAR_ALL_FOODS_COMMAND));
        r.push(String::from_str(CHANGE_LANGUAGE_COMMAND));
        r.push(String::from_str(DISCOVER_COMPLETE_DIPDEX_COMMAND));
        r.push(String::from_str(GIVE_MONEY_COMMAND));
        assert(views(r@) == spec_command_names());
        r
    }
}


// ---------------------------------------------------------------------------
// Completion and submission
// ---------------------------------------------------------------------------

/// Whether a character has the Unicode White_Space property, which is what
/// `char::is_whitespace` tests.
pub open spec fn is_white_space(c: char) -> bool {
    let u = c as int;
    ||| 0x09 <= u <= 0x0d
    ||| u == 0x20
    ||| u == 0x85
    ||| u == 0xa0
    ||| u == 0x1680
    ||| 0x2000 <= u <= 0x200a
    ||| u == 0x2028
    ||| u == 0x2029
    ||| u == 0x202f
    ||| u == 0x205f
    ||| u == 0x3000
}

/// The words of `s` from position `i` on, `word` being the part of a word
/// read just before `i`.
pub open spec fn words_from(s: Seq<char>, i: int, word: Seq<char>) -> Seq<Seq<char>>
    decreases s.len() - i,
{
    if i < 0 || i >= s.len() {
        if word.len() > 0 {
            seq![word]
        } else {
            Seq::empty()
        }
    } else if is_white_space(s[i]) {
        (if word.len() > 0 {
            seq![word]
        } else {
            Seq::empty()
        }) + words_from(s, i + 1, Seq::empty())
    } else {
        words_from(s, i + 1, word.push(s[i]))
    }
}

/// What `str::split_whitespace` yields for a string: its maximal runs of
/// characters that are not white space, in order.
pub open spec fn spec_split_whitespace(s: Seq<char>) -> Seq<Seq<char>> {
    words_from(s, 0, Seq::empty())
}

/// Whether a character is white space (see `is_white_space`).
fn white_space(c: char) -> (b: bool)
    ensures
        b == is_white_space(c),
{
    let u = c as u32;
    (0x09 <= u && u <= 0x0d) || u == 0x20 || u == 0x85 || u == 0xa0 || u == 0x1680 || (0x2000 <= u
        && u <= 0x200a) || u == 0x2028 || u == 0x2029 || u == 0x202f || u == 0x205f || u == 0x3000
}

/// Splits a line into its words, as `str::split_whitespace` does (see
/// `spec_split_whitespace`).
fn split_words(s: &str) -> (r: Vec<String>)
    ensures
        views(r@) == spec_split_whitespace(s@),
{
    let n = s.unicode_len();
    let mut r: Vec<String> = Vec::new();
    let mut start: usize = 0;
    let mut i: usize = 0;
    proof {
        assert(s@.subrange(0, 0) =~= Seq::<char>::empty());
        assert(views(r@) + spec_split_whitespace(s@) =~= spec_split_whitespace(s@));
    }
    while i < n
        invariant
            n == s@.len(),
            start <= i <= n,
            views(r@) + words_from(s@, i as int, s@.subrange(start as int, i as int))
                == spec_split_whitespace(s@),
        decreases n - i,
    {
        let c = s.get_char(i);
        let ghost w = s@.subrange(start as int, i as int);
        let ghost rest = words_from(s@, i + 1, Seq::empty());
        if white_space(c) {
            if start < i {
                let word = String::from_str(s.substring_char(start, i));
                let ghost before = views(r@);
                r.push(word);
                proof {
                    assert(views(r@) =~= before.push(w));
                    assert(before + (seq![w] + rest) =~= before.push(w) + rest);
                }
            } else {
                assert(w =~= Seq::<char>::empty());
                assert(views(r@) + (Seq::<Seq<char>>::empty() + rest) =~= views(r@) + rest);
            }
            start = i + 1;
            assert(s@.subrange(start as int, start as int) =~= Seq::<char>::empty());
        } else {
            assert(s@.subrange(start as int, i + 1) =~= w.push(c));
        }
        i = i + 1;
    }
    let ghost w = s@.subrange(start as int, n as int);
    if start < n {
        let word = String::from_str(s.substring_char(start, n));
        let ghost before = views(r@);
        r.push(word);
        proof {
            assert(views(r@) =~= before.push(w));
            assert(before + seq![w] =~= before.push(w));
        }
    } else {
        assert(w =~= Seq::<char>::empty());
        assert(views(r@) + Seq::<Seq<char>>::empty() =~= views(r@));
    }
    r
}

/// Whether every character is an ASCII digit.
pub open spec fn all_digits(d: Seq<char>) -> bool {
    forall|i: int| 0 <= i < d.len() ==> '0' <= #[trigger] d[i] && d[i] <= '9'
}

/// The value of a string of decimal digits.
pub open spec fn digits_value(d: Seq<char>) -> int
    decreases d.len(),
{
    if d.len() == 0 {
        0
    } else {
        digits_value(d.drop_last()) * 10 + (d.last() as int - '0' as int)
    }
}

/// What `str::parse::<i64>` gives for a string: an optional `+` or `-`
/// followed by one or more ASCII digits reads as that number when it fits in
/// an `i64`; anything else (an empty string, a lone sign, any other
/// character, white space included, or a number out of range) is refused.
pub open spec fn spec_parse_i64(s: Seq<char>) -> Option<i64> {
    let negative = s.len() > 0 && s[0] == '-';
    let digits = if s.len() > 0 && (s[0] == '-' || s[0] == '+') {
        s.drop_first()
    } else {
        s
    };
    let value = if negative {
        -digits_value(digits)
    } else {
        digits_value(digits)
    };
    if digits.len() == 0 || !all_digits(digits) || value < i64::MIN || value > i64::MAX {
        None
    } else {
        Some(value as i64)
    }
}

/// A string of digits is worth at least any of its beginnings.
proof fn lemma_digits_value_grows(d: Seq<char>, k: int)
    requires
        all_digits(d),
        0 <= k <= d.len(),
    ensures
        digits_value(d) >= digits_value(d.take(k)) >= 0,
    decreases d.len(),
{
    if d.len() > 0 {
        if k == d.len() {
            assert(d.take(k) =~= d);
            lemma_digits_value_grows(d.drop_last(), k - 1);
            assert(d.drop_last().take(k - 1) =~= d.drop_last());
        } else {
            lemma_digits_value_grows(d.drop_last(), k);
            assert(d.drop_last().take(k) =~= d.take(k));
        }
    } else {
        assert(d.take(k) =~= d);
    }
}

/// Reads an amount of money as `str::parse::<i64>` does (see
/// `spec_parse_i64`).
fn parse_money(s: &str) -> (r: Option<Money>)
    ensures
        r == spec_parse_i64(s@),
{
    let n = s.unicode_len();
    if n == 0 {
        return None;
    }
    let first = s.get_char(0);
    let negative = first == '-';
    let start: usize = if first == '-' || first == '+' {
        1
    } else {
        0
    };
    let ghost digits = if s@.len() > 0 && (s@[0] == '-' || s@[0] == '+') {
        s@.drop_first()
    } else {
        s@
    };
    proof {
        assert(digits =~= s@.subrange(start as int, n as int));
    }
    if start == n {
        return None;
    }
    let mut acc: u64 = 0;
    let mut i: usize = start;
    while i < n
        invariant
            n == s@.len(),
            start <= i <= n,
            digits == s@.subrange(start as int, n as int),
            digits == if s@.len() > 0 && (s@[0] == '-' || s@[0] == '+') {
                s@.drop_first()
            } else {
                s@
            },
            negative == (s@.len() > 0 && s@[0] == '-'),
            all_digits(s@.subrange(start as int, i as int)),
            acc == digits_value(s@.subrange(start as int, i as int)),
            acc <= 10_000_000_000_000_000_009,
        decreases n - i,
    {
        let c = s.get_char(i);
        let ghost prefix = s@.subrange(start as int, i as int);
        if !('0' <= c && c <= '9') {
            proof {
                assert(digits[i - start] == c);
                assert(!all_digits(digits));
            }
            return None;
        }
        let d = (c as u32 - '0' as u32) as u64;
        proof {
            assert(s@.subrange(start as int, i + 1) =~= prefix.push(c));
            assert(s@.subrange(start as int, i + 1).drop_last() =~= prefix);
        }
        if acc > 1_000_000_000_000_000_000 {
            proof {
                let longer = s@.subrange(start as int, i + 1);
                assert(digits_value(longer) == acc * 10 + d);
                if all_digits(digits) {
                    lemma_digits_value_grows(digits, i + 1 - start);
                    assert(digits.take(i + 1 - start) =~= longer);
                    assert(digits_value(digits) > i64::MAX + 1);
                }
                assert(spec_parse_i64(s@) is None);
            }
            return None;
        }
        acc = acc * 10 + d;
        i = i + 1;
    }
    proof {
        assert(s@.subrange(start as int, n as int) == digits);
    }
    let v: i128 = if negative {
        0 - (acc as i128)
    } else {
        acc as i128
    };
    if v < -9_223_372_036_854_775_808i128 || v > 9_223_372_036_854_775_807i128 {
        None
    } else {
        Some(v as i64)
    }
}

/// Whether two strings hold the same characters.
fn same_text(a: &str, b: &str) -> (r: bool)
    ensures
        r == (a@ == b@),
{
    let n = a.unicode_len();
    if n != b.unicode_len() {
        return false;
    }
    let mut i: usize = 0;
    while i < n
        invariant
            0 <= i <= n,
            n == a@.len(),
            n == b@.len(),
            forall|j: int| 0 <= j < i ==> a@[j] == b@[j],
        decreases n - i,
    {
        if a.get_char(i) != b.get_char(i) {
            return false;
        }
        i = i + 1;
    }
    assert(a@ =~= b@);
    true
}

/// Whether `s` starts with `prefix`.
fn starts_with(s: &str, prefix: &str) -> (r: bool)
    ensures
        r == prefix@.is_prefix_of(s@),
{
    let n = prefix.unicode_len();
    if n > s.unicode_len() {
        return false;
    }
    let mut i: usize = 0;
    while i < n
        invariant
            0 <= i <= n,
            n == prefix@.len(),
            n <= s@.len(),
            forall|j: int| 0 <= j < i ==> prefix@[j] == s@[j],
        decreases n - i,
    {
        if prefix.get_char(i) != s.get_char(i) {
            return false;
        }
        i = i + 1;
    }
    assert(s@.take(n as int) =~= prefix@);
    true
}

/// The candidates among the first `n` that start with `prefix`, in order.
pub open spec fn starting_with(names: Seq<Seq<char>>, prefix: Seq<char>, n: int) -> Seq<Seq<char>>
    decreases n,
{
    if n <= 0 || n > names.len() {
        Seq::empty()
    } else {
        let rest = starting_with(names, prefix, n - 1);
        if prefix.is_prefix_of(names[n - 1]) {
            rest.push(names[n - 1])
        } else {
            rest
        }
    }
}

/// How a partly typed word is completed from candidates: no completion when
/// no candidate starts with it, the candidate when exactly one does, and
/// their common prefix (see `spec_common_prefix`) when several do.
pub open spec fn spec_complete(names: Seq<Seq<char>>, typed: Seq<char>) -> Option<Seq<char>> {
    let ms = starting_with(names, typed, names.len() as int);
    if ms.len() == 0 {
        None
    } else if ms.len() == 1 {
        Some(ms[0])
    } else {
        Some(spec_common_prefix(ms))
    }
}

/// Completes a partly typed word from candidates (see `spec_complete`).
pub fn complete_word(candidates: &Vec<String>, typed: &str) -> (r: Option<String>)
    ensures
        match spec_complete(views(candidates@), typed@) {
            Some(s) => r matches Some(t) && t@ == s,
            None => r is None,
        },
{
    let ghost names = views(candidates@);
    let mut matches: Vec<String> = Vec::new();
    let mut i: usize = 0;
    while i < candidates.len()
        invariant
            0 <= i <= candidates@.len(),
            names == views(candidates@),
            views(matches@) == starting_with(names, typed@, i as int),
        decreases candidates@.len() - i,
    {
        let c: &str = candidates[i].as_str();
        assert(names[i as int] == c@);
        if starts_with(c, typed) {
            matches.push(String::from_str(c));
            assert(views(matches@) == starting_with(names, typed@, i as int).push(names[i as int]));
        }
        i = i + 1;
    }
    if matches.len() == 0 {
        None
    } else if matches.len() == 1 {
        Some(String::from_str(matches[0].as_str()))
    } else {
        Some(common_prefix(&matches))
    }
}

/// How the second word of `spawn_food` is completed from the food names:
/// the command, a space, and the completed name.
pub open spec fn spec_command_auto_complete(
    command: Seq<char>,
    sub_command: Seq<char>,
    food_names: Option<Seq<Seq<char>>>,
) -> Option<Seq<char>> {
    if command == "spawn_food"@ && food_names is Some {
        match spec_complete(food_names->Some_0, sub_command) {
            Some(m) => Some(command + " "@ + m),
            None => None,
        }
    } else {
        None
    }
}

/// Completes the argument of a command (see `spec_command_auto_complete`).
pub fn command_auto_complete(command: &str, sub_command: &str, food_names: Option<&Vec<String>>) -> (r:
    Option<String>)
    ensures
        match spec_command_auto_complete(
            command@,
            sub_command@,
            match food_names {
                Some(v) => Some(views(v@)),
                None => None,
            },
        ) {
            Some(s) => r matches Some(t) && t@ == s,
            None => r is None,
        },
{
    if !same_text(command, SPAWN_FOOD_COMMAND) {
        return None;
    }
    match food_names {
        Some(names) => match complete_word(names, sub_command) {
            Some(m) => {
                let mut s = String::from_str(command);
                s.append(" ");
                s.append(m.as_str());
                Some(s)
            },
            None => None,
        },
        None => None,
    }
}

/// What the Tab key makes of the console's input: a lone word is completed
/// from the command names, a command and one more word by
/// `spec_command_auto_complete`; anything else is left alone.
pub open spec fn spec_tab_completion(text: Seq<char>, food_names: Option<Seq<Seq<char>>>) -> Option<
    Seq<char>,
> {
    let words = spec_split_whitespace(text);
    if words.len() == 1 {
        spec_complete(spec_command_names(), words[0])
    } else if words.len() == 2 {
        spec_command_auto_complete(words[0], words[1], food_names)
    } else {
        None
    }
}

/// Completes the console's input (see `spec_tab_completion`).
pub fn tab_completion(text: &str, food_names: Option<&Vec<String>>) -> (r: Option<String>)
    ensures
        match spec_tab_completion(
            text@,
            match food_names {
                Some(v) => Some(views(v@)),
                None => None,
            },
        ) {
            Some(s) => r matches Some(t) && t@ == s,
            None => r is None,
        },
{
    let words = split_words(text);
    if words.len() == 1 {
        let commands = DevConsoleCommand::commands();
        complete_word(&commands, words[0].as_str())
    } else if words.len() == 2 {
        command_auto_complete(words[0].as_str(), words[1].as_str(), food_names)
    } else {
        None
    }
}

/// The command a submitted line asks for, given its words: commands that
/// take an argument need a second word (a money gift without one gives 100,
/// and one whose amount does not read as a number gives nothing).
pub open spec fn spec_line_command(words: Seq<Seq<char>>) -> Option<CommandRequest> {
    let name = words[0];
    let has_arg = words.len() > 1;
    if name == "set_sim_time_scale"@ {
        if has_arg { Some(CommandRequest::SetSimTimeScale(words[1])) } else { None }
    } else if name == "spawn_pet"@ {
        if has_arg { Some(CommandRequest::SpawnPet(words[1])) } else { None }
    } else if name == "evolve_pet"@ {
        if has_arg { Some(CommandRequest::EvolvePet(words[1])) } else { None }
    } else if name == "spawn_food"@ {
        if has_arg { Some(CommandRequest::SpawnFood(words[1])) } else { None }
    } else if name == "spawn_poop"@ {
        Some(CommandRequest::SpawnPoop)
    } else if name == "clear_all_pets"@ {
        Some(CommandRequest::ClearAllPets)
    } else if name == "clear_all_foods"@ {
        Some(CommandRequest::ClearAllFoods)
    } else if name == "change_language"@ {
        if has_arg { Some(CommandRequest::ChangeLanguage(words[1])) } else { None }
    } else if name == "discover_complete_dipdex"@ {
        Some(CommandRequest::DiscoverCompleteDipdex)
    } else if name == "spawn_spewer"@ {
        Some(CommandRequest::SpawnSpewer)
    } else if name == "give_money"@ {
        if has_arg {
            match spec_parse_i64(words[1]) {
                Some(m) => Some(CommandRequest::GiveMoney(m)),
                None => None,
            }
        } else {
            Some(CommandRequest::GiveMoney(100))
        }
    } else {
        None
    }
}

/// A command as the specification speaks of it: arguments as character sequences.
pub ghost enum CommandRequest {
    SetSimTimeScale(Seq<char>),
    SpawnPet(Seq<char>),
    EvolvePet(Seq<char>),
    SpawnFood(Seq<char>),
    SpawnSpewer,
    SpawnPoop,
    ClearAllPets,
    ClearAllFoods,
    ChangeLanguage(Seq<char>),
    DiscoverCompleteDipdex,
    GiveMoney(Money),
}

impl DevConsoleCommand {
    pub open spec fn request(&self) -> CommandRequest {
        match self {
            DevConsoleCommand::SetSimTimeScale(s) => CommandRequest::SetSimTimeScale(s@),
            DevConsoleCommand::SpawnPet(s) => CommandRequest::SpawnPet(s@),
            DevConsoleCommand::EvolvePet(s) => CommandRequest::EvolvePet(s@),
            DevConsoleCommand::SpawnFood(s) => CommandRequest::SpawnFood(s@),
            DevConsoleCommand::SpawnSpewer => CommandRequest::SpawnSpewer,
            DevConsoleCommand::SpawnPoop => CommandRequest::SpawnPoop,
            DevConsoleCommand::ClearAllPets => CommandRequest::ClearAllPets,
            DevConsoleCommand::ClearAllFoods => CommandRequest::ClearAllFoods,
            DevConsoleCommand::ChangeLanguage(s) => CommandRequest::ChangeLanguage(s@),
            DevConsoleCommand::DiscoverCompleteDipdex => CommandRequest::DiscoverCompleteDipdex,
            DevConsoleCommand::GiveMoney(m) => CommandRequest::GiveMoney(*m),
        }
    }
}

/// Whether a line's first word names a command.
pub open spec fn is_command_name(name: Seq<char>) -> bool {
    spec_command_names().contains(name)
}

fn word_arg(words: &Vec<String>) -> (r: String)
    requires
        words@.len() > 1,
    ensures
        r@ == words@[1]@,
{
    String::from_str(words[1].as_str())
}

/// Reads the command a line's words ask for (see `spec_line_command`).
fn line_command(words: &Vec<String>) -> (r: Option<DevConsoleCommand>)
    requires
        words@.len() > 0,
    ensures
        match spec_line_command(views(words@)) {
            Some(c) => r matches Some(d) && d.request() == c,
            None => r is None,
        },
{
    let name: &str = words[0].as_str();
    let has_arg = words.len() > 1;
    if same_text(name, SET_SIM_TIME_SCALE_COMMAND) {
        if has_arg { Some(DevConsoleCommand::SetSimTimeScale(word_arg(words))) } else { None }
    } else if same_text(name, SPAWN_PET_COMMAND) {
        if has_arg { Some(DevConsoleCommand::SpawnPet(word_arg(words))) } else { None }
    } else if same_text(name, EVOLVE_PET_COMMAND) {
        if has_arg { Some(DevConsoleCommand::EvolvePet(word_arg(words))) } else { None }
    } else if same_text(name, SPAWN_FOOD_COMMAND) {
        if has_arg { Some(DevConsoleCommand::SpawnFood(word_arg(words))) } else { None }
    } else if same_text(name, SPAWN_POOP_COMMAND) {
        Some(DevConsoleCommand::SpawnPoop)
    } else if same_text(name, CLEAR_ALL_PETS_COMMAND) {
        Some(DevConsoleCommand::ClearAllPets)
    } else if same_text(name, CLEAR_ALL_FOODS_COMMAND) {
        Some(DevConsoleCommand::ClearAllFoods)
    } else if same_text(name, CHANGE_LANGUAGE_COMMAND) {
        if has_arg { Some(DevConsoleCommand::ChangeLanguage(word_arg(words))) } else { None }
    } else if same_text(name, DISCOVER_COMPLETE_DIPDEX_COMMAND) {
        Some(DevConsoleCommand::DiscoverCompleteDipdex)
    } else if same_text(name, SPAWN_SPEWER_COMMAND) {
        Some(DevConsoleCommand::SpawnSpewer)
    } else if same_text(name, GIVE_MONEY_COMMAND) {
        if has_arg {
            match parse_money(words[1].as_str()) {
                Some(m) => Some(DevConsoleCommand::GiveMoney(m)),
                None => None,
            }
        } else {
            Some(DevConsoleCommand::GiveMoney(100))
        }
    } else {
        None
    }
}

/// The unknown-command message for a word.
pub open spec fn unknown_command_message(word: Seq<char>) -> Seq<char> {
    "Unknown command: \""@ + word + "\""@
}

/// Relates the input and history before and after a submission to the command
/// that came of it.
pub open spec fn submitted(
    line: Seq<char>,
    typed: String,
    before: Seq<DevConsoleHistoryEntry>,
    line_after: Seq<char>,
    after: Seq<DevConsoleHistoryEntry>,
    command: Option<CommandRequest>,
) -> bool {
    let words = spec_split_whitespace(line);
    if words.len() == 0 {
        &&& command is None
        &&& line_after == line
        &&& after == before
    } else {
        &&& command == spec_line_command(words)
        &&& line_after == Seq::<char>::empty()
        &&& if is_command_name(words[0]) {
            after == before.push(DevConsoleHistoryEntry::UserInput(typed))
        } else {
            &&& after.len() == before.len() + 2
            &&& after.take(before.len() as int) == before
            &&& after[before.len() as int] matches DevConsoleHistoryEntry::CommandOutput(o)
            &&& o@ == unknown_command_message(words[0])
            &&& after.last() == DevConsoleHistoryEntry::UserInput(typed)
        }
    }
}

/// What submitting the console's input does: a blank line does nothing;
/// otherwise the line's command is read (see `spec_line_command`), a line
/// whose first word names no command prints `Unknown command: "<word>"`, the
/// line joins the history as typed, and the input is cleared.
pub fn submit_line(text: &mut String, history: &mut DevConsoleHistory) -> (r: Option<DevConsoleCommand>)
    ensures
        submitted(
            old(text)@,
            *old(text),
            old(history).history@,
            final(text)@,
            final(history).history@,
            match r {
                Some(d) => Some(d.request()),
                None => None,
            },
        ),
{
    let words = split_words(text.as_str());
    if words.len() == 0 {
        return None;
    }
    let command = line_command(&words);
    let name: &str = words[0].as_str();
    let known = same_text(name, SET_SIM_TIME_SCALE_COMMAND) || same_text(name, SPAWN_PET_COMMAND)
        || same_text(name, EVOLVE_PET_COMMAND) || same_text(name, SPAWN_FOOD_COMMAND) || same_text(
        name,
        SPAWN_POOP_COMMAND,
    ) || same_text(name, CLEAR_ALL_PETS_COMMAND) || same_text(name, CLEAR_ALL_FOODS_COMMAND)
        || same_text(name, CHANGE_LANGUAGE_COMMAND) || same_text(
        name,
        DISCOVER_COMPLETE_DIPDEX_COMMAND,
    ) || same_text(name, SPAWN_SPEWER_COMMAND) || same_text(name, GIVE_MONEY_COMMAND);
    proof {
        let names = spec_command_names();
        assert(known == names.contains(name@)) by {
            if names.contains(name@) {
                let k = choose|k: int| 0 <= k < names.len() && names[k] == name@;
                assert(0 <= k < 11);
            }
            if known {
                if name@ == names[0] {} else if name@ == names[1] {} else if name@ == names[2] {}
                else if name@ == names[3] {} else if name@ == names[4] {} else if name@ == names[5] {}
                else if name@ == names[6] {} else if name@ == names[7] {} else if name@ == names[8] {}
                else if name@ == names[9] {} else { assert(name@ == names[10]); }
            }
        }
    }
    let ghost h0 = history.history@;
    if !known {
        let mut msg = String::from_str("Unknown command: \"");
        msg.append(name);
        msg.append("\"");
        history.push_command_output(msg);
    }
    let ghost h1 = history.history@;
    let typed = text.clone();
    history.push_user_input(typed);
    *text = String::new();
    proof {
        if !known {
            assert(history.history@.take(h0.len() as int) == h0);
            assert(history.history@[h0.len() as int] == h1[h0.len() as int]);
        }
    }
    command
}

// ---------------------------------------------------------------------------
// Typing
// ---------------------------------------------------------------------------

/// A key pressed while the console is open: digits `0..=9` and letters
/// `0..=25` (a to z) by number.
#[derive(Clone, Copy, Debug, PartialEq, Eq, Structural)]
pub enum ConsoleKey {
    Digit(u8),
    Letter(u8),
    Minus,
    Equal,
    Space,
    Period,
    Backspace,
    Tab,
    ArrowUp,
    Other,
}

pub open spec fn digit_text(d: u8, shift: bool) -> Seq<char> {
    if d == 0 {
        if shift { ")"@ } else { "0"@ }
    } else if d == 1 {
        if shift { "!"@ } else { "1"@ }
    } else if d == 2 {
        if shift { "@"@ } else { "2"@ }
    } else if d == 3 {
        if shift { "#"@ } else { "3"@ }
    } else if d == 4 {
        if shift { "$"@ } else { "4"@ }
    } else if d == 5 {
        if shift { "%"@ } else { "5"@ }
    } else if d == 6 {
        if shift { "^"@ } else { "6"@ }
    } else if d == 7 {
        if shift { "&"@ } else { "7"@ }
    } else if d == 8 {
        if shift { "*"@ } else { "8"@ }
    } else {
        if shift { "("@ } else { "9"@ }
    }
}

fn digit_str(d: u8, shift: bool) -> (s: &'static str)
    requires
        d <= 9,
    ensures
        s@ == digit_text(d, shift),
{
    match d {
        0 => if shift { ")" } else { "0" },
        1 => if shift { "!" } else { "1" },
        2 => if shift { "@" } else { "2" },
        3 => if shift { "#" } else { "3" },
        4 => if shift { "$" } else { "4" },
        5 => if shift { "%" } else { "5" },
        6 => if shift { "^" } else { "6" },
        7 => if shift { "&" } else { "7" },
        8 => if shift { "*" } else { "8" },
        _ => if shift { "(" } else { "9" },
    }
}

pub open spec fn letter_text(l: u8, shift: bool) -> Seq<char> {
    if l == 0 {
        if shift { "A"@ } else { "a"@ }
    } else if l == 1 {
        if shift { "B"@ } else { "b"@ }
    } else if l == 2 {
        if shift { "C"@ } else { "c"@ }
    } else if l == 3 {
        if shift { "D"@ } else { "d"@ }
    } else if l == 4 {
        if shift { "E"@ } else { "e"@ }
    } else if l == 5 {
        if shift { "F"@ } else { "f"@ }
    } else if l == 6 {
        if shift { "G"@ } else { "g"@ }
    } else if l == 7 {
        if shift { "H"@ } else { "h"@ }
    } else if l == 8 {
        if shift { "I"@ } else { "i"@ }
    } else if l == 9 {
        if shift { "J"@ } else { "j"@ }
    } else if l == 10 {
        if shift { "K"@ } else { "k"@ }
    } else if l == 11 {
        if shift { "L"@ } else { "l"@ }
    } else if l == 12 {
        if shift { "M"@ } else { "m"@ }
    } else if l == 13 {
        if shift { "N"@ } else { "n"@ }
    } else if l == 14 {
        if shift { "O"@ } else { "o"@ }
    } else if l == 15 {
        if shift { "P"@ } else { "p"@ }
    } else if l == 16 {
        if shift { "Q"@ } else { "q"@ }
    } else if l == 17 {
        if shift { "R"@ } else { "r"@ }
    } else if l == 18 {
        if shift { "S"@ } else { "s"@ }
    } else if l == 19 {
        if shift { "T"@ } else { "t"@ }
    } else if l == 20 {
        if shift { "U"@ } else { "u"@ }
    } else if l == 21 {
        if shift { "V"@ } else { "v"@ }
    } else if l == 22 {
        if shift { "W"@ } else { "w"@ }
    } else if l == 23 {
        if shift { "X"@ } else { "x"@ }
    } else if l == 24 {
        if shift { "Y"@ } else { "y"@ }
    } else {
        if shift { "Z"@ } else { "z"@ }
    }
}

fn letter_str(l: u8, shift: bool) -> (s: &'static str)
    requires
        l <= 25,
    ensures
        s@ == letter_text(l, shift),
{
    match l {
        0 => if shift { "A" } else { "a" },
        1 => if shift { "B" } else { "b" },
        2 => if shift { "C" } else { "c" },
        3 => if shift { "D" } else { "d" },
        4 => if shift { "E" } else { "e" },
        5 => if shift { "F" } else { "f" },
        6 => if shift { "G" } else { "g" },
        7 => if shift { "H" } else { "h" },
        8 => if shift { "I" } else { "i" },
        9 => if shift { "J" } else { "j" },
        10 => if shift { "K" } else { "k" },
        11 => if shift { "L" } else { "l" },
        12 => if shift { "M" } else { "m" },
        13 => if shift { "N" } else { "n" },
        14 => if shift { "O" } else { "o" },
        15 => if shift { "P" } else { "p" },
        16 => if shift { "Q" } else { "q" },
        17 => if shift { "R" } else { "r" },
        18 => if shift { "S" } else { "s" },
        19 => if shift { "T" } else { "t" },
        20 => if shift { "U" } else { "u" },
        21 => if shift { "V" } else { "v" },
        22 => if shift { "W" } else { "w" },
        23 => if shift { "X" } else { "x" },
        24 => if shift { "Y" } else { "y" },
        _ => if shift { "Z" } else { "z" },
    }
}

/// The text a key types, with or without shift held; none for keys that
/// type nothing.
pub open spec fn spec_key_text(key: ConsoleKey, shift: bool) -> Option<Seq<char>> {
    match key {
        ConsoleKey::Digit(d) => if d <= 9 { Some(digit_text(d, shift)) } else { None },
        ConsoleKey::Letter(l) => if l <= 25 { Some(letter_text(l, shift)) } else { None },
        ConsoleKey::Minus => Some(if shift { "_"@ } else { "-"@ }),
        ConsoleKey::Equal => Some(if shift { "+"@ } else { "="@ }),
        ConsoleKey::Space => Some(" "@),
        ConsoleKey::Period => Some(if shift { ">"@ } else { "."@ }),
        _ => None,
    }
}

/// The text a key types (see `spec_key_text`).
pub fn key_text(key: ConsoleKey, shift: bool) -> (r: Option<&'static str>)
    ensures
        match spec_key_text(key, shift) {
            Some(t) => r matches Some(s) && s@ == t,
            None => r is None,
        },
{
    match key {
        ConsoleKey::Digit(d) => if d <= 9 { Some(digit_str(d, shift)) } else { None },
        ConsoleKey::Letter(l) => if l <= 25 { Some(letter_str(l, shift)) } else { None },
        ConsoleKey::Minus => Some(if shift { "_" } else { "-" }),
        ConsoleKey::Equal => Some(if shift { "+" } else { "=" }),
        ConsoleKey::Space => Some(" "),
        ConsoleKey::Period => Some(if shift { ">" } else { "." }),
        _ => None,
    }
}

/// The last line the user typed, if any.
pub open spec fn last_user_input(h: Seq<DevConsoleHistoryEntry>) -> Option<Seq<char>> {
    match last_input_position(h, h.len() as int) {
        Some(i) => match h[i] {
            DevConsoleHistoryEntry::UserInput(s) => Some(s@),
            DevConsoleHistoryEntry::CommandOutput(s) => Some(s@),
        },
        None => None,
    }
}

/// What a key press makes of the console's input: backspace removes the last
/// character; otherwise Tab completes the input (see `spec_tab_completion`),
/// the up arrow brings back the last line typed, and then the key's text, if
/// it has any, is added.
pub open spec fn spec_key_press(
    text: Seq<char>,
    key: ConsoleKey,
    shift: bool,
    last_input: Option<Seq<char>>,
    food_names: Option<Seq<Seq<char>>>,
) -> Seq<char> {
    if key == ConsoleKey::Backspace {
        if text.len() > 0 { text.drop_last() } else { text }
    } else {
        let completed = if key == ConsoleKey::Tab {
            match spec_tab_completion(text, food_names) {
                Some(m) => m,
                None => text,
            }
        } else {
            text
        };
        let recalled = if key == ConsoleKey::ArrowUp {
            match last_input {
                Some(l) => l,
                None => completed,
            }
        } else {
            completed
        };
        match spec_key_text(key, shift) {
            Some(t) => recalled + t,
            None => recalled,
        }
    }
}

/// Applies a key press to the console's input (see `spec_key_press`).
pub fn console_key_press(
    text: &mut String,
    history: &DevConsoleHistory,
    key: ConsoleKey,
    shift: bool,
    food_names: Option<&Vec<String>>,
)
    ensures
        final(text)@ == spec_key_press(
            old(text)@,
            key,
            shift,
            last_user_input(history.history@),
            match food_names {
                Some(v) => Some(views(v@)),
                None => None,
            },
        ),
{
    if key == ConsoleKey::Backspace {
        let n = text.unicode_len();
        if n > 0 {
            let kept = String::from_str(text.as_str().substring_char(0, n - 1));
            *text = kept;
        }
        return;
    }
    if key == ConsoleKey::Tab {
        match tab_completion(text.as_str(), food_names) {
            Some(m) => {
                *text = m;
            },
            None => {},
        }
    }
    if key == ConsoleKey::ArrowUp {
        match history.get_last_user_input() {
            Some(last) => {
                *text = last.clone();
            },
            None => {},
        }
    }
    match key_text(key, shift) {
        Some(t) => {
            text.append(t);
        },
        None => {},
    }
}

// ---------------------------------------------------------------------------
// Display
// ---------------------------------------------------------------------------

/// How many lines of history the console shows.
pub const HISTORY_LINES_SHOWN: usize = 4;

impl DevConsoleHistory {
    /// The positions of the history lines shown in the console's four rows,
    /// top to bottom: the newest line at the bottom, rows above the oldest
    /// shown line left empty.
    pub fn history_slots(&self) -> (r: Vec<Option<usize>>)
        ensures
            r@.len() == HISTORY_LINES_SHOWN,
            forall|i: int|
                0 <= i < HISTORY_LINES_SHOWN ==> #[trigger] r@[i] == if self.history@.len() - 4 + i
                    >= 0 {
                    Some((self.history@.len() - 4 + i) as usize)
                } else {
                    None
                },
    {
        let n = self.history.len();
        let mut r: Vec<Option<usize>> = Vec::new();
        let mut i: usize = 0;
        while i < HISTORY_LINES_SHOWN
            invariant
                0 <= i <= HISTORY_LINES_SHOWN,
                n == self.history@.len(),
                r@.len() == i,
                forall|q: int|
                    0 <= q < i ==> #[trigger] r@[q] == if n - 4 + q >= 0 {
                        Some((n - 4 + q) as usize)
                    } else {
                        None
                    },
            decreases HISTORY_LINES_SHOWN - i,
        {
            if n >= HISTORY_LINES_SHOWN - i {
                r.push(Some(n - (HISTORY_LINES_SHOWN - i)));
            } else {
                r.push(None);
            }
            i = i + 1;
        }
        r
    }
}

/// Half a second, in nanoseconds: how long the cursor stays shown or hidden.
pub const CURSOR_FLASH_PERIOD: u64 = 500_000_000;

/// The console's flashing cursor.
#[derive(Clone, Copy, Debug, PartialEq, Eq)]
pub struct CursorFlashTimer {
    pub timer: RepeatingTimer,
    pub showing: bool,
}

impl CursorFlashTimer {
    /// A shown cursor that flips every half second.
    pub fn new() -> (c: Self)
        ensures
            c.timer == RepeatingTimer::new_spec(CURSOR_FLASH_PERIOD),
            c.showing,
    {
        CursorFlashTimer { timer: RepeatingTimer::new(CURSOR_FLASH_PERIOD), showing: true }
    }

    /// Advances the cursor's timer; the cursor flips when a period ends.
    pub fn tick(&mut self, delta: u64)
        requires
            old(self).timer.elapsed + delta <= u64::MAX,
        ensures
            final(self).timer == spec_tick(old(self).timer, delta as int),
            final(self).showing == if spec_tick(old(self).timer, delta as int).times_finished_this_tick > 0 {
                !old(self).showing
            } else {
                old(self).showing
            },
    {
        self.timer.tick(delta);
        if self.timer.just_finished() {
            self.showing = !self.showing;
        }
    }

    /// What the cursor looks like: an underscore when shown.
    pub fn cursor_text(&self) -> (s: &'static str)
        ensures
            s@ == if self.showing { "_"@ } else { ""@ },
    {
        if self.showing { "_" } else { "" }
    }
}

} // verus!
