//! The keymap: which characters trigger each letter-based command, so that
//! shortcuts work under several keyboard layouts.

use vstd::prelude::*;

use crate::config::{join_path, path_join, MtrmPaths};
use crate::platform_keys::contains_char;
use crate::text::chars_of;

verus! {

broadcast use vstd::std_specs::vec::group_vec_axioms;

/// The characters bound to each letter-based command.
#[derive(Debug, Clone)]
pub struct Keymap {
    pub copy: Vec<char>,
    pub paste: Vec<char>,
    pub interrupt: Vec<char>,
    pub close_pane: Vec<char>,
    pub new_tab: Vec<char>,
    pub close_tab: Vec<char>,
    pub rename_tab: Vec<char>,
    pub rename_pane: Vec<char>,
    pub quit: Vec<char>,
    pub previous_tab: Vec<char>,
    pub next_tab: Vec<char>,
}

/// The keymap file written on first start: Latin layouts, Russian, French
/// AZERTY and Greek.
pub const DEFAULT_KEYMAP_TOML: &'static str = "[commands]
copy = [\"c\", \"с\", \"ψ\"]
paste = [\"v\", \"м\", \"ω\"]
interrupt = [\"x\", \"ч\", \"χ\"]
close_pane = [\"q\", \"й\", \"a\"]
new_tab = [\"t\", \"е\", \"τ\"]
close_tab = [\"w\", \"ц\", \"z\"]
rename_tab = [\"R\", \"К\"]
rename_pane = [\"E\", \"У\"]
quit = [\"Q\", \"Й\", \":\", \"X\", \"Ч\", \"Χ\"]
previous_tab = [\",\", \"б\"]
next_tab = [\".\", \"ю\"]
";

/// The text of the default keymap file.
pub fn default_keymap_toml() -> (s: &'static str)
    ensures
        s@ == DEFAULT_KEYMAP_TOML@,
{
    DEFAULT_KEYMAP_TOML
}

/// The bindings of the rename-tab command when a file gives none.
pub fn default_rename_tab_bindings() -> (v: Vec<String>)
    ensures
        v@.len() == 2,
        v@[0]@ == seq!['R'],
        v@[1]@ == seq!['К'],
{
    let mut v: Vec<String> = Vec::new();
    v.push(crate::text::string_of(&vec!['R']));
    v.push(crate::text::string_of(&vec!['К']));
    v
}

/// The bindings of the rename-pane command when a file gives none.
pub fn default_rename_pane_bindings() -> (v: Vec<String>)
    ensures
        v@.len() == 2,
        v@[0]@ == seq!['E'],
        v@[1]@ == seq!['У'],
{
    let mut v: Vec<String> = Vec::new();
    v.push(crate::text::string_of(&vec!['E']));
    v.push(crate::text::string_of(&vec!['У']));
    v
}

/// The command lists of a keymap file, one string per binding.
#[derive(Debug, Clone)]
pub struct CommandsFile {
    pub copy: Vec<String>,
    pub paste: Vec<String>,
    pub interrupt: Vec<String>,
    pub close_pane: Vec<String>,
    pub new_tab: Vec<String>,
    pub close_tab: Vec<String>,
    pub rename_tab: Vec<String>,
    pub rename_pane: Vec<String>,
    pub quit: Vec<String>,
    pub previous_tab: Vec<String>,
    pub next_tab: Vec<String>,
}

/// A keymap file.
#[derive(Debug, Clone)]
pub struct KeymapFile {
    pub commands: CommandsFile,
}

/// Why a keymap could not be had.
#[derive(Debug, Clone, Copy, PartialEq, Eq)]
pub enum KeymapError {
    Config,
    Create,
    Read,
    Write,
    Parse,
    Invalid(&'static str),
}

/// The fixed message of each keymap error.
pub open spec fn keymap_error_message(e: KeymapError) -> &'static str {
    match e {
        KeymapError::Config => "keymap directory setup failed",
        KeymapError::Create => "keymap file creation failed",
        KeymapError::Read => "keymap file read failed",
        KeymapError::Write => "keymap file write failed",
        KeymapError::Parse => "keymap parse failed",
        KeymapError::Invalid(_) => "keymap is invalid",
    }
}

impl KeymapError {
    /// The message shown for the error.
    pub fn message(&self) -> (s: &'static str)
        ensures
            s@ == keymap_error_message(*self)@,
    {
        match self {
            KeymapError::Config => "keymap directory setup failed",
            KeymapError::Create => "keymap file creation failed",
            KeymapError::Read => "keymap file read failed",
            KeymapError::Write => "keymap file write failed",
            KeymapError::Parse => "keymap parse failed",
            KeymapError::Invalid(_) => "keymap is invalid",
        }
    }
}

/// Every binding is a single character.
pub open spec fn all_single(values: Seq<String>) -> bool {
    forall|i: int| 0 <= i < values.len() ==> (#[trigger] values[i])@.len() == 1
}

/// The characters of single-character bindings.
pub open spec fn bound_chars(values: Seq<String>) -> Set<char> {
    Set::new(|c: char| exists|i: int| 0 <= i < values.len() && (#[trigger] values[i])@ == seq![c])
}

/// Reads the bindings of one command: each must be a single character, and
/// there must be at least one.
pub fn parse_chars(name: &'static str, values: Vec<String>) -> (r: Result<Vec<char>, KeymapError>)
    ensures
        r is Ok <==> all_single(values@) && values@.len() > 0,
        r is Err ==> r == Err::<Vec<char>, KeymapError>(KeymapError::Invalid(name)),
        r matches Ok(cs) ==> cs@.to_set() == bound_chars(values@) && cs@.no_duplicates(),
{
    let mut chars: Vec<char> = Vec::new();
    let mut i: usize = 0;
    while i < values.len()
        invariant
            0 <= i <= values@.len(),
            all_single(values@.take(i as int)),
            chars@.to_set() == bound_chars(values@.take(i as int)),
            chars@.no_duplicates(),
        decreases values@.len() - i,
    {
        let cs = chars_of(values[i].as_str());
        if cs.len() != 1 {
            proof {
                assert(values@[i as int]@.len() != 1);
                assert(!all_single(values@)) by {
                    assert(values@[i as int]@.len() != 1);
                }
            }
            return Err(KeymapError::Invalid(name));
        }
        let ch = cs[0];
        proof {
            assert(values@[i as int]@ =~= seq![ch]);
        }
        let ghost before = chars@;
        let already = contains_char(&chars, ch);
        if !already {
            chars.push(ch);
        }
        proof {
            if already {
                assert(chars@ == before);
            } else {
                assert(chars@ == before.push(ch));
                assert(chars@[before.len() as int] == ch);
                assert forall|a: int, b: int| 0 <= a < b < chars@.len() implies chars@[a] != chars@[b] by {
                    if b == before.len() {
                        assert(chars@[a] == before[a]);
                    } else {
                        assert(chars@[a] == before[a] && chars@[b] == before[b]);
                    }
                }
            }
            assert(chars@.contains(ch));
            assert forall|c: char| before.contains(c) implies chars@.contains(c) by {
                let j = choose|j: int| 0 <= j < before.len() && before[j] == c;
                assert(chars@[j] == before[j]);
            }
            assert forall|c: char| chars@.contains(c) && c != ch implies before.contains(c) by {
                let j = choose|j: int| 0 <= j < chars@.len() && chars@[j] == c;
                if !already {
                    assert(j < before.len());
                    assert(before[j] == c);
                }
            }
            let t = values@.take(i + 1);
            assert(t.take(i as int) =~= values@.take(i as int));
            assert forall|j: int| 0 <= j < t.len() implies (#[trigger] t[j])@.len() == 1 by {
                if j < i {
                    assert(t[j] == values@.take(i as int)[j]);
                }
            }
            assert(chars@.to_set() =~= bound_chars(t)) by {
                assert forall|c: char| bound_chars(t).contains(c) implies chars@.to_set().contains(c) by {
                    let j = choose|j: int| 0 <= j < t.len() && (#[trigger] t[j])@ == seq![c];
                    if j < i {
                        assert(values@.take(i as int)[j] == t[j]);
                        assert(bound_chars(values@.take(i as int)).contains(c));
                        assert(before.to_set().contains(c));
                        assert(before.contains(c));
                    } else {
                        assert(seq![c][0] == c);
                        assert(seq![ch][0] == ch);
                        assert(c == ch);
                    }
                }
                assert forall|c: char| chars@.to_set().contains(c) implies bound_chars(t).contains(c) by {
                    if c == ch {
                        assert(t[i as int]@ == seq![c]);
                    } else {
                        assert(before.contains(c));
                        assert(before.to_set().contains(c));
                        assert(bound_chars(values@.take(i as int)).contains(c));
                        let j = choose|j: int| 0 <= j < i && (#[trigger] values@.take(i as int)[j])@ == seq![c];
                        assert(t[j] == values@.take(i as int)[j]);
                    }
                }
            }
        }
        i = i + 1;
    }
    proof {
        assert(values@.take(i as int) =~= values@);
    }
    if chars.len() == 0 {
        proof {
            if values@.len() > 0 {
                assert(values@[0]@.len() == 1);
                let c = values@[0]@[0];
                assert(values@[0]@ =~= seq![c]);
                assert(bound_chars(values@).contains(c));
                assert(chars@.to_set().contains(c));
            }
        }
        return Err(KeymapError::Invalid(name));
    }
    proof {
        assert(values@.len() > 0) by {
            if values@.len() == 0 {
                assert(bound_chars(values@) =~= Set::<char>::empty());
                assert(chars@.to_set().contains(chars@[0]));
            }
        }
    }
    Ok(chars)
}

/// The command lists of a file are all valid.
pub open spec fn commands_valid(c: CommandsFile) -> bool {
    &&& all_single(c.copy@) && c.copy@.len() > 0
    &&& all_single(c.paste@) && c.paste@.len() > 0
    &&& all_single(c.interrupt@) && c.interrupt@.len() > 0
    &&& all_single(c.close_pane@) && c.close_pane@.len() > 0
    &&& all_single(c.new_tab@) && c.new_tab@.len() > 0
    &&& all_single(c.close_tab@) && c.close_tab@.len() > 0
    &&& all_single(c.rename_tab@) && c.rename_tab@.len() > 0
    &&& all_single(c.rename_pane@) && c.rename_pane@.len() > 0
    &&& all_single(c.quit@) && c.quit@.len() > 0
    &&& all_single(c.previous_tab@) && c.previous_tab@.len() > 0
    &&& all_single(c.next_tab@) && c.next_tab@.len() > 0
}

/// The keymap holds exactly the characters of the file's command lists.
pub open spec fn keymap_of(k: Keymap, c: CommandsFile) -> bool {
    &&& k.copy@.to_set() == bound_chars(c.copy@)
    &&& k.paste@.to_set() == bound_chars(c.paste@)
    &&& k.interrupt@.to_set() == bound_chars(c.interrupt@)
    &&& k.close_pane@.to_set() == bound_chars(c.close_pane@)
    &&& k.new_tab@.to_set() == bound_chars(c.new_tab@)
    &&& k.close_tab@.to_set() == bound_chars(c.close_tab@)
    &&& k.rename_tab@.to_set() == bound_chars(c.rename_tab@)
    &&& k.rename_pane@.to_set() == bound_chars(c.rename_pane@)
    &&& k.quit@.to_set() == bound_chars(c.quit@)
    &&& k.previous_tab@.to_set() == bound_chars(c.previous_tab@)
    &&& k.next_tab@.to_set() == bound_chars(c.next_tab@)
}

/// The first command of the file, in the order of the keymap, whose list is
/// not valid.
pub open spec fn first_invalid_command(c: CommandsFile) -> &'static str {
    if !(all_single(c.copy@) && c.copy@.len() > 0) {
        "copy"
    } else if !(all_single(c.paste@) && c.paste@.len() > 0) {
        "paste"
    } else if !(all_single(c.interrupt@) && c.interrupt@.len() > 0) {
        "interrupt"
    } else if !(all_single(c.close_pane@) && c.close_pane@.len() > 0) {
        "close_pane"
    } else if !(all_single(c.new_tab@) && c.new_tab@.len() > 0) {
        "new_tab"
    } else if !(all_single(c.close_tab@) && c.close_tab@.len() > 0) {
        "close_tab"
    } else if !(all_single(c.rename_tab@) && c.rename_tab@.len() > 0) {
        "rename_tab"
    } else if !(all_single(c.rename_pane@) && c.rename_pane@.len() > 0) {
        "rename_pane"
    } else if !(all_single(c.quit@) && c.quit@.len() > 0) {
        "quit"
    } else if !(all_single(c.previous_tab@) && c.previous_tab@.len() > 0) {
        "previous_tab"
    } else {
        "next_tab"
    }
}

/// `k` holds the characters of the default keymap file.
pub open spec fn is_default_keymap(k: Keymap) -> bool {
    &&& k.copy@ == seq!['c', 'с', 'ψ']
    &&& k.paste@ == seq!['v', 'м', 'ω']
    &&& k.interrupt@ == seq!['x', 'ч', 'χ']
    &&& k.close_pane@ == seq!['q', 'й', 'a']
    &&& k.new_tab@ == seq!['t', 'е', 'τ']
    &&& k.close_tab@ == seq!['w', 'ц', 'z']
    &&& k.rename_tab@ == seq!['R', 'К']
    &&& k.rename_pane@ == seq!['E', 'У']
    &&& k.quit@ == seq!['Q', 'Й', ':', 'X', 'Ч', 'Χ']
    &&& k.previous_tab@ == seq![',', 'б']
    &&& k.next_tab@ == seq!['.', 'ю']
}

impl Default for Keymap {
    /// The keymap of the default keymap file.
    fn default() -> (k: Keymap)
        ensures
            is_default_keymap(k),
            k.copy@ == seq!['c', 'с', 'ψ'],
            k.paste@ == seq!['v', 'м', 'ω'],
            k.interrupt@ == seq!['x', 'ч', 'χ'],
            k.close_pane@ == seq!['q', 'й', 'a'],
            k.new_tab@ == seq!['t', 'е', 'τ'],
            k.close_tab@ == seq!['w', 'ц', 'z'],
            k.rename_tab@ == seq!['R', 'К'],
            k.rename_pane@ == seq!['E', 'У'],
            k.quit@ == seq!['Q', 'Й', ':', 'X', 'Ч', 'Χ'],
            k.previous_tab@ == seq![',', 'б'],
            k.next_tab@ == seq!['.', 'ю'],
    {
        Keymap {
            copy: vec!['c', 'с', 'ψ'],
            paste: vec!['v', 'м', 'ω'],
            interrupt: vec!['x', 'ч', 'χ'],
            close_pane: vec!['q', 'й', 'a'],
            new_tab: vec!['t', 'е', 'τ'],
            close_tab: vec!['w', 'ц', 'z'],
            rename_tab: vec!['R', 'К'],
            rename_pane: vec!['E', 'У'],
            quit: vec!['Q', 'Й', ':', 'X', 'Ч', 'Χ'],
            previous_tab: vec![',', 'б'],
            next_tab: vec!['.', 'ю'],
        }
    }
}

impl Keymap {
    /// The keymap of a file: each command list must hold single characters
    /// and at least one; the first that does not is reported.
    pub fn try_from(value: KeymapFile) -> (r: Result<Keymap, KeymapError>)
        ensures
            r is Ok <==> commands_valid(value.commands),
            r matches Ok(k) ==> keymap_of(k, value.commands),
            r is Err ==> r == Err::<Keymap, KeymapError>(KeymapError::Invalid(first_invalid_command(value.commands))),
    {
        let c = value.commands;
        let copy = parse_chars("copy", c.copy)?;
        let paste = parse_chars("paste", c.paste)?;
        let interrupt = parse_chars("interrupt", c.interrupt)?;
        let close_pane = parse_chars("close_pane", c.close_pane)?;
        let new_tab = parse_chars("new_tab", c.new_tab)?;
        let close_tab = parse_chars("close_tab", c.close_tab)?;
        let rename_tab = parse_chars("rename_tab", c.rename_tab)?;
        let rename_pane = parse_chars("rename_pane", c.rename_pane)?;
        let quit = parse_chars("quit", c.quit)?;
        let previous_tab = parse_chars("previous_tab", c.previous_tab)?;
        let next_tab = parse_chars("next_tab", c.next_tab)?;
        Ok(Keymap {
            copy,
            paste,
            interrupt,
            close_pane,
            new_tab,
            close_tab,
            rename_tab,
            rename_pane,
            quit,
            previous_tab,
            next_tab,
        })
    }

    pub fn matches_copy(&self, ch: char) -> (r: bool)
        ensures
            r == self.copy@.contains(ch),
    {
        contains_char(&self.copy, ch)
    }

    pub fn matches_paste(&self, ch: char) -> (r: bool)
        ensures
            r == self.paste@.contains(ch),
    {
        contains_char(&self.paste, ch)
    }

    pub fn matches_interrupt(&self, ch: char) -> (r: bool)
        ensures
            r == self.interrupt@.contains(ch),
    {
        contains_char(&self.interrupt, ch)
    }

    pub fn matches_close_pane(&self, ch: char) -> (r: bool)
        ensures
            r == self.close_pane@.contains(ch),
    {
        contains_char(&self.close_pane, ch)
    }

    pub fn matches_new_tab(&self, ch: char) -> (r: bool)
        ensures
            r == self.new_tab@.contains(ch),
    {
        contains_char(&self.new_tab, ch)
    }

    pub fn matches_close_tab(&self, ch: char) -> (r: bool)
        ensures
            r == self.close_tab@.contains(ch),
    {
        contains_char(&self.close_tab, ch)
    }

    pub fn matches_rename_tab(&self, ch: char) -> (r: bool)
        ensures
            r == self.rename_tab@.contains(ch),
    {
        contains_char(&self.rename_tab, ch)
    }

    pub fn matches_rename_pane(&self, ch: char) -> (r: bool)
        ensures
            r == self.rename_pane@.contains(ch),
    {
        contains_char(&self.rename_pane, ch)
    }

    pub fn matches_quit(&self, ch: char) -> (r: bool)
        ensures
            r == self.quit@.contains(ch),
    {
        contains_char(&self.quit, ch)
    }

    pub fn matches_previous_tab(&self, ch: char) -> (r: bool)
        ensures
            r == self.previous_tab@.contains(ch),
    {
        contains_char(&self.previous_tab, ch)
    }

    pub fn matches_next_tab(&self, ch: char) -> (r: bool)
        ensures
            r == self.next_tab@.contains(ch),
    {
        contains_char(&self.next_tab, ch)
    }
}

/// The name of the keymap file inside the data directory.
pub const KEYMAP_FILE_NAME: &'static str = "keymap.toml";

/// Where the keymap file of the data directory is.
pub fn keymap_file_path_from_paths(paths: &MtrmPaths) -> (r: String)
    ensures
        r@ == path_join(paths.data_dir@, KEYMAP_FILE_NAME@),
{
    join_path(paths.data_dir.as_str(), KEYMAP_FILE_NAME)
}

} // verus!
