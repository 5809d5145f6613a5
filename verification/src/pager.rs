//! The pager that long output goes through: whether to use one, which
//! program, and what each write does.
//!
//! The program around the library starts the pager's process and moves the
//! text; the pager here keeps the state and decides.
use vstd::prelude::*;
use crate::commands::merge_tool::word_len;
use crate::error::Error;
use crate::text::{chars_of, char_is_ws, is_ws, slice_chars, str_eq, string_from_chars, strings_view};

verus! {

/// The pager programs tried, in order, when none is set.
pub open spec fn pager_candidate(i: int) -> Seq<char> {
    if i == 0 {
        "less -FRX"@
    } else if i == 1 {
        "more"@
    } else if i == 2 {
        "cat"@
    } else {
        "pager"@
    }
}

/// The first candidate found, by position.
pub open spec fn first_pager(found: Seq<bool>, i: int) -> Option<int>
    decreases 4 - i,
{
    if i >= 4 || i < 0 {
        None
    } else if found[i] {
        Some(i)
    } else {
        first_pager(found, i + 1)
    }
}

/// The pager program: `ASH_PAGER`, else `PAGER`, else the first of less
/// (as `less -FRX`), more, cat and pager that is found, else cat.
pub open spec fn pager_command(ash_pager: Option<Seq<char>>, pager: Option<Seq<char>>, found: Seq<bool>) -> Seq<
    char,
> {
    match ash_pager {
        Some(p) => p,
        None => match pager {
            Some(p) => p,
            None => match first_pager(found, 0) {
                Some(i) => pager_candidate(i),
                None => "cat"@,
            },
        },
    }
}

/// The words of a command line, split at whitespace.
pub open spec fn words(s: Seq<char>) -> Seq<Seq<char>>
    decreases s.len(),
{
    if s.len() == 0 {
        seq![]
    } else if is_ws(s[0]) {
        words(s.drop_first())
    } else {
        let n = word_len(s);
        if 0 < n <= s.len() {
            seq![s.take(n as int)] + words(s.skip(n as int))
        } else {
            seq![]
        }
    }
}

/// What a write does.
#[derive(Debug, Clone, Copy, PartialEq, Eq, Structural)]
pub enum PagerWrite {
    /// Nothing: the pager is off, or the user left it.
    Skip,
    /// The text goes to the standard output.
    Print,
    /// The text goes to the pager's input.
    Send,
}

/// Output through a pager.
#[derive(Debug)]
pub struct Pager {
    enabled: bool,
    command: String,
    connected: bool,
    early_exit: bool,
}

proof fn lemma_word_len(s: Seq<char>)
    ensures
        word_len(s) <= s.len(),
        s.len() > 0 && !is_ws(s[0]) ==> word_len(s) > 0,
    decreases s.len(),
{
    if s.len() > 0 && !is_ws(s[0]) {
        lemma_word_len(s.drop_first());
    }
}

impl Pager {
    /// Whether output goes through the pager.
    pub closed spec fn enabled_view(&self) -> bool {
        self.enabled
    }

    /// The pager program.
    pub closed spec fn command_view(&self) -> Seq<char> {
        self.command@
    }

    /// Whether the pager's input is connected.
    pub closed spec fn connected_view(&self) -> bool {
        self.connected
    }

    /// Whether the user left the pager.
    pub closed spec fn early_exit_view(&self) -> bool {
        self.early_exit
    }

    /// A pager for the settings: used when `ASH_FORCE_PAGER` is `1` or the
    /// output is a terminal (then with the program `ASH_PAGER`, `PAGER`, or
    /// the first of less, more, cat and pager found, else cat); otherwise
    /// off, with cat.
    pub fn new(
        force_pager: Option<&str>,
        is_terminal: bool,
        ash_pager: Option<&str>,
        pager: Option<&str>,
        found: &Vec<bool>,
    ) -> (r: Pager)
        requires
            found.len() == 4,
        ensures
            r.enabled_view() == ((force_pager matches Some(f) && f@ == "1"@) || is_terminal),
            r.enabled_view() ==> r.command_view() == pager_command(
                match ash_pager {
                    Some(p) => Some(p@),
                    None => None,
                },
                match pager {
                    Some(p) => Some(p@),
                    None => None,
                },
                found@,
            ),
            !r.enabled_view() ==> r.command_view() == "cat"@,
            !r.connected_view(),
            !r.early_exit_view(),
    {
        let forced = match force_pager {
            Some(f) => str_eq(f, "1"),
            None => false,
        };
        if !(forced || is_terminal) {
            return Pager { enabled: false, command: "cat".to_owned(), connected: false, early_exit: false };
        }
        let command = match ash_pager {
            Some(p) => p.to_owned(),
            None => match pager {
                Some(p) => p.to_owned(),
                None => {
                    let mut i: usize = 0;
                    let mut chosen: Option<String> = None;
                    while i < 4 && chosen.is_none()
                        invariant
                            i <= 4,
                            found.len() == 4,
                            chosen is None ==> first_pager(found@, 0) == first_pager(found@, i as int),
                            chosen matches Some(c) ==> (first_pager(found@, 0) matches Some(k)
                                && c@ == pager_candidate(k)),
                        decreases 4 - i,
                    {
                        if found[i] {
                            let c = if i == 0 {
                                "less -FRX"
                            } else if i == 1 {
                                "more"
                            } else if i == 2 {
                                "cat"
                            } else {
                                "pager"
                            };
                            chosen = Some(c.to_owned());
                        }
                        i += 1;
                    }
                    match chosen {
                        Some(c) => c,
                        None => "cat".to_owned(),
                    }
                },
            },
        };
        Pager { enabled: true, command, connected: false, early_exit: false }
    }

    /// The program and arguments to start: the command's words; an error
    /// when it has none.
    pub fn start_parts(&self) -> (r: Result<Vec<String>, Error>)
        ensures
            words(self.command_view()).len() > 0 ==> (r matches Ok(v) && strings_view(v@) == words(
                self.command_view(),
            )),
            words(self.command_view()).len() == 0 ==> (r matches Err(Error::Generic(m)) && m@
                == "Invalid pager command"@),
    {
        let c = chars_of(self.command.as_str());
        let mut parts: Vec<String> = Vec::new();
        let mut i: usize = 0;
        assert(c@.skip(0) =~= c@);
        while i < c.len()
            invariant
                i <= c.len(),
                c@ == self.command_view(),
                words(c@) == strings_view(parts@) + words(c@.skip(i as int)),
            decreases c.len() - i,
        {
            if char_is_ws(c[i]) {
                assert(c@.skip(i as int).drop_first() =~= c@.skip(i + 1));
                i += 1;
            } else {
                let start = i;
                let ghost t = c@.skip(start as int);
                proof {
                    lemma_word_len(t);
                }
                while i < c.len() && !char_is_ws(c[i])
                    invariant
                        start <= i <= c.len(),
                        t == c@.skip(start as int),
                        word_len(t) == (i - start) + word_len(c@.skip(i as int)),
                    decreases c.len() - i,
                {
                    assert(c@.skip(i as int).drop_first() =~= c@.skip(i + 1));
                    i += 1;
                }
                assert(word_len(c@.skip(i as int)) == 0);
                let w = slice_chars(c.as_slice(), start, i);
                let ghost before = strings_view(parts@);
                parts.push(string_from_chars(w.as_slice()));
                assert(w@ =~= t.take(word_len(t) as int));
                assert(t.skip(word_len(t) as int) =~= c@.skip(i as int));
                assert(strings_view(parts@) =~= before.push(w@));
            }
        }
        assert(c@.skip(i as int) =~= Seq::<char>::empty());
        if parts.len() == 0 {
            return Err(Error::Generic("Invalid pager command".to_owned()));
        }
        assert(strings_view(parts@) =~= words(c@));
        Ok(parts)
    }

    /// Records how starting a pager that is on went: without a process or
    /// its input it is turned off (and its output is dropped).
    pub fn started(&mut self, connected: bool)
        ensures
            old(self).enabled_view() ==> final(self).connected_view() == connected
                && final(self).enabled_view() == connected,
            !old(self).enabled_view() ==> final(self).connected_view() == old(self).connected_view()
                && !final(self).enabled_view(),
            final(self).command_view() == old(self).command_view(),
            final(self).early_exit_view() == old(self).early_exit_view(),
    {
        if !self.enabled {
            return;
        }
        if !connected {
            self.enabled = false;
        }
        self.connected = connected;
    }

    /// What a write does: nothing when the pager is off or was left, the
    /// standard output when its input is not connected, else the pager.
    pub fn write_action(&self) -> (r: PagerWrite)
        ensures
            r == if !self.enabled_view() || self.early_exit_view() {
                PagerWrite::Skip
            } else if !self.connected_view() {
                PagerWrite::Print
            } else {
                PagerWrite::Send
            },
    {
        if !self.enabled || self.early_exit {
            PagerWrite::Skip
        } else if !self.connected {
            PagerWrite::Print
        } else {
            PagerWrite::Send
        }
    }

    /// Records that the pager's input was closed by the user: later writes
    /// are skipped.
    pub fn broken_pipe(&mut self)
        ensures
            final(self).early_exit_view(),
            final(self).enabled_view() == old(self).enabled_view(),
            final(self).connected_view() == old(self).connected_view(),
            final(self).command_view() == old(self).command_view(),
    {
        self.early_exit = true;
    }

    /// Closes the pager: it is off and disconnected afterwards. Whether the
    /// program around should wait for the pager's process is returned: it
    /// should when the input was connected and the user did not leave.
    pub fn close(&mut self) -> (r: bool)
        ensures
            r == (old(self).connected_view() && !old(self).early_exit_view()),
            !final(self).enabled_view(),
            !final(self).connected_view(),
            final(self).early_exit_view() == old(self).early_exit_view(),
            final(self).command_view() == old(self).command_view(),
    {
        let wait = self.connected && !self.early_exit;
        self.enabled = false;
        self.connected = false;
        wait
    }

    /// Whether the user left the pager.
    pub fn exited_early(&self) -> (r: bool)
        ensures
            r == self.early_exit_view(),
    {
        self.early_exit
    }

    /// Turns the pager off.
    pub fn disable(&mut self)
        ensures
            !final(self).enabled_view(),
            final(self).connected_view() == old(self).connected_view(),
            final(self).early_exit_view() == old(self).early_exit_view(),
            final(self).command_view() == old(self).command_view(),
    {
        self.enabled = false;
    }
}

} // verus!
