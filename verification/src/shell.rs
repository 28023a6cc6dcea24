//! The line-editing shell: a draft line the user types into, a history the
//! arrow keys walk, and the dispatcher that turns a submitted line into a
//! command.  The state machine is driven one decoded key at a time; what
//! it asks the caller to render comes back as an effect.

use vstd::prelude::*;
use crate::task::keyboard::Key;

verus! {

/// What dispatching a submitted line asks the kernel to do.
#[derive(Debug, Clone, PartialEq, Eq)]
pub enum CommandAction {
    /// An empty line, or a command that currently does nothing.
    Nothing,
    /// Leave the emulator.
    Exit,
    /// Clear the screen below the top row.
    Clear,
    /// Print the joined arguments.
    Echo(Vec<char>),
    /// An unrecognized command word, reported back.
    Unknown(Vec<char>),
}

/// What the caller renders after one key.
#[derive(Debug, Clone, PartialEq, Eq)]
pub enum ShellEffect {
    /// Nothing changed on screen.
    Silent,
    /// The typed character appears at the cursor.
    Echo(char),
    /// The prompt row is redrawn with the current draft.
    Redraw,
    /// A line was submitted and dispatched.
    Submitted(CommandAction),
}

/// ASCII lowercasing of one character.
pub open spec fn spec_lower_char(c: char) -> char {
    if c == 'A' {
        'a'
    } else
    if c == 'B' {
        'b'
    } else
    if c == 'C' {
        'c'
    } else
    if c == 'D' {
        'd'
    } else
    if c == 'E' {
        'e'
    } else
    if c == 'F' {
        'f'
    } else
    if c == 'G' {
        'g'
    } else
    if c == 'H' {
        'h'
    } else
    if c == 'I' {
        'i'
    } else
    if c == 'J' {
        'j'
    } else
    if c == 'K' {
        'k'
    } else
    if c == 'L' {
        'l'
    } else
    if c == 'M' {
        'm'
    } else
    if c == 'N' {
        'n'
    } else
    if c == 'O' {
        'o'
    } else
    if c == 'P' {
        'p'
    } else
    if c == 'Q' {
        'q'
    } else
    if c == 'R' {
        'r'
    } else
    if c == 'S' {
        's'
    } else
    if c == 'T' {
        't'
    } else
    if c == 'U' {
        'u'
    } else
    if c == 'V' {
        'v'
    } else
    if c == 'W' {
        'w'
    } else
    if c == 'X' {
        'x'
    } else
    if c == 'Y' {
        'y'
    } else
    if c == 'Z' {
        'z'
    } else {
        c
    }
}

/// ASCII lowercasing of a word.
pub open spec fn spec_lowered(s: Seq<char>) -> Seq<char> {
    s.map_values(|c: char| spec_lower_char(c))
}

/// The tokens of `s` split at every space, scanning from position `i`
/// with the current token started at `start`: every maximal (possibly
/// empty) run between spaces is one token.
pub open spec fn spec_split_from(s: Seq<char>, i: int, start: int) -> Seq<Seq<char>>
    recommends
        0 <= start <= i <= s.len(),
    decreases s.len() - i,
{
    if i < 0 || i >= s.len() {
        seq![s.subrange(start, s.len() as int)]
    } else if s[i] == ' ' {
        seq![s.subrange(start, i)] + spec_split_from(s, i + 1, i + 1)
    } else {
        spec_split_from(s, i + 1, start)
    }
}

/// The tokens of `s`, split at every space.
pub open spec fn spec_split(s: Seq<char>) -> Seq<Seq<char>> {
    spec_split_from(s, 0, 0)
}

/// Tokens joined back with single spaces.
pub open spec fn spec_join_spaces(tokens: Seq<Seq<char>>) -> Seq<char>
    decreases tokens.len(),
{
    if tokens.len() == 0 {
        Seq::empty()
    } else if tokens.len() == 1 {
        tokens[0]
    } else {
        tokens[0] + seq![' '] + spec_join_spaces(tokens.drop_first())
    }
}

/// What dispatching the line `line` must produce: the first token,
/// lowercased, picks the command; the remaining tokens are its arguments.
pub open spec fn dispatch_rel(line: Seq<char>, action: CommandAction) -> bool {
    let tokens = spec_split(line);
    let cmd = spec_lowered(tokens[0]);
    let args = tokens.drop_first();
    match action {
        CommandAction::Nothing => cmd == Seq::<char>::empty() || cmd == seq!['r', 'a', 'n', 'd'],
        CommandAction::Exit => cmd == seq!['e', 'x', 'i', 't'],
        CommandAction::Clear => cmd == seq!['c', 'l', 'e', 'a', 'r'],
        CommandAction::Echo(v) => cmd == seq!['e', 'c', 'h', 'o'] && v@ == spec_join_spaces(args),
        CommandAction::Unknown(v) => {
            &&& cmd != Seq::<char>::empty()
            &&& cmd != seq!['r', 'a', 'n', 'd']
            &&& cmd != seq!['e', 'x', 'i', 't']
            &&& cmd != seq!['c', 'l', 'e', 'a', 'r']
            &&& cmd != seq!['e', 'c', 'h', 'o']
            &&& v@ == cmd
        },
    }
}

/// The history after making sure the cursor points at an entry: a fresh
/// empty entry is appended when the cursor sits one past the end.
pub open spec fn hist_ensured(h: Seq<Seq<char>>, p: int) -> Seq<Seq<char>> {
    if p < h.len() {
        h
    } else {
        h.push(Seq::empty())
    }
}

/// The shell state: the line being edited, the last submitted line, the
/// submitted-line history, and the cursor into it.
pub struct Shell {
    pub command_draft: Vec<char>,
    pub command: Vec<char>,
    pub history: Vec<Vec<char>>,
    pub point: usize,
}

/// Submitting the draft: it becomes the command, the draft clears, the
/// history entry under the cursor is replaced by the submitted line at the
/// front — which the closing history write then blanks, the cursor having
/// moved to it.
pub open spec fn submit_rel(pre: Shell, post: Shell) -> bool {
    let h1 = hist_ensured(pre.hist(), pre.point as int);
    &&& post.command@ == pre.command_draft@
    &&& post.command_draft@ == Seq::<char>::empty()
    &&& post.point == 0
    &&& post.hist() == seq![Seq::<char>::empty()] + h1.remove(pre.point as int)
}

/// Erasing one character: the draft loses its last character (if any) and
/// is saved to the history entry under the cursor.
pub open spec fn backspace_rel(pre: Shell, post: Shell) -> bool {
    let d = if pre.command_draft@.len() > 0 {
        pre.command_draft@.drop_last()
    } else {
        pre.command_draft@
    };
    &&& post.command_draft@ == d
    &&& post.command@ == pre.command@
    &&& post.point == pre.point
    &&& post.hist() == hist_ensured(pre.hist(), pre.point as int).update(pre.point as int, d)
}

/// Typing one character: it is appended to the draft, which is saved to
/// the history entry under the cursor.
pub open spec fn typed_rel(pre: Shell, post: Shell, c: char) -> bool {
    let d = pre.command_draft@.push(c);
    &&& post.command_draft@ == d
    &&& post.command@ == pre.command@
    &&& post.point == pre.point
    &&& post.hist() == hist_ensured(pre.hist(), pre.point as int).update(pre.point as int, d)
}

/// Walking up: the cursor moves one entry back and that entry is loaded
/// into the draft (and written straight back by the closing history
/// write).
pub open spec fn arrow_up_rel(pre: Shell, post: Shell) -> bool {
    let h1 = hist_ensured(pre.hist(), pre.point as int);
    let p = pre.point - 1;
    &&& post.point == p
    &&& post.command_draft@ == h1[p]
    &&& post.command@ == pre.command@
    &&& post.hist() == h1.update(p, h1[p])
}

/// Walking down: the cursor moves one entry forward — growing the history
/// by an empty entry if it walks off the end — and that entry is loaded
/// into the draft.
pub open spec fn arrow_down_rel(pre: Shell, post: Shell) -> bool {
    let h1 = hist_ensured(pre.hist(), pre.point as int);
    let p = pre.point + 1;
    let h2 = hist_ensured(h1, p as int);
    &&& post.point == p
    &&& post.command_draft@ == h2[p as int]
    &&& post.command@ == pre.command@
    &&& post.hist() == h2.update(p as int, h2[p as int])
}

/// Any other named key: the draft stays and is saved to the history entry
/// under the cursor.
pub open spec fn other_raw_rel(pre: Shell, post: Shell) -> bool {
    &&& post.command_draft@ == pre.command_draft@
    &&& post.command@ == pre.command@
    &&& post.point == pre.point
    &&& post.hist() == hist_ensured(pre.hist(), pre.point as int).update(
        pre.point as int,
        pre.command_draft@,
    )
}

impl Shell {
    /// The history as plain lines.
    pub open spec fn hist(self) -> Seq<Seq<char>> {
        self.history@.map_values(|h: Vec<char>| h@)
    }

    /// The cursor never points past the end of the history.
    pub open spec fn wf(self) -> bool {
        self.point <= self.history@.len()
    }

    /// A fresh shell: everything empty, the cursor at the start.
    pub fn new() -> (r: Shell)
        ensures
            r.wf(),
            r.command_draft@.len() == 0,
            r.command@.len() == 0,
            r.hist().len() == 0,
            r.point == 0,
    {
        let r = Shell {
            command_draft: Vec::new(),
            command: Vec::new(),
            history: Vec::new(),
            point: 0,
        };
        proof {
            assert(r.hist() =~= Seq::<Seq<char>>::empty());
        }
        r
    }

    /// Make sure the cursor points at an entry, appending an empty one
    /// where it walked off the end.
    fn check_or_add(&mut self)
        requires
            old(self).wf(),
            old(self).history@.len() < usize::MAX,
        ensures
            final(self).hist() == hist_ensured(old(self).hist(), old(self).point as int),
            final(self).point == old(self).point,
            final(self).command_draft@ == old(self).command_draft@,
            final(self).command@ == old(self).command@,
            final(self).point < final(self).hist().len(),
            final(self).wf(),
    {
        if self.point >= self.history.len() {
            self.history.push(Vec::new());
            proof {
                assert(self.hist() =~= old(self).hist().push(Seq::empty()));
            }
        }
    }

    /// Save the draft into the history entry under the cursor.
    fn update_history(&mut self)
        requires
            old(self).point < old(self).history@.len(),
        ensures
            final(self).hist() == old(self).hist().update(
                old(self).point as int,
                old(self).command_draft@,
            ),
            final(self).point == old(self).point,
            final(self).command_draft@ == old(self).command_draft@,
            final(self).command@ == old(self).command@,
    {
        if self.point < self.history.len() {
            let saved = clone_chars(&self.command_draft);
            self.history.remove(self.point);
            self.history.insert(self.point, saved);
            proof {
                assert(self.hist() =~= old(self).hist().update(
                    old(self).point as int,
                    old(self).command_draft@,
                ));
            }
        }
    }

    /// Feed one decoded key into the shell and report what to render.
    /// A newline submits and dispatches the draft; backspace erases; any
    /// other character is typed; the arrow keys walk the history, doing
    /// nothing at its edges; other named keys just redraw.
    pub fn get_char(&mut self, key: Key) -> (effect: ShellEffect)
        requires
            old(self).wf(),
            old(self).history@.len() + 2 < usize::MAX,
        ensures
            final(self).wf(),
            match key {
                Key::Unicode(c) => {
                    if c == '\n' {
                        &&& submit_rel(*old(self), *final(self))
                        &&& (effect matches ShellEffect::Submitted(a) && dispatch_rel(
                            old(self).command_draft@,
                            a,
                        ))
                    } else if c == '\x08' {
                        backspace_rel(*old(self), *final(self)) && effect == ShellEffect::Redraw
                    } else {
                        typed_rel(*old(self), *final(self), c) && effect == ShellEffect::Echo(c)
                    }
                },
                Key::Raw(name) => {
                    if name@ == "ArrowUp"@ {
                        if old(self).point == 0 {
                            &&& final(self).hist() == hist_ensured(
                                old(self).hist(),
                                old(self).point as int,
                            )
                            &&& final(self).command_draft@ == old(self).command_draft@
                            &&& final(self).command@ == old(self).command@
                            &&& final(self).point == old(self).point
                            &&& effect == ShellEffect::Silent
                        } else {
                            arrow_up_rel(*old(self), *final(self)) && effect
                                == ShellEffect::Redraw
                        }
                    } else if name@ == "ArrowDown"@ {
                        if old(self).command_draft@.len() == 0 {
                            &&& final(self).hist() == hist_ensured(
                                old(self).hist(),
                                old(self).point as int,
                            )
                            &&& final(self).command_draft@ == old(self).command_draft@
                            &&& final(self).command@ == old(self).command@
                            &&& final(self).point == old(self).point
                            &&& effect == ShellEffect::Silent
                        } else {
                            arrow_down_rel(*old(self), *final(self)) && effect
                                == ShellEffect::Redraw
                        }
                    } else {
                        other_raw_rel(*old(self), *final(self)) && effect == ShellEffect::Redraw
                    }
                },
            },
    {
        self.check_or_add();
        match key {
            Key::Unicode(character) => {
                if character == '\n' {
                    let topush = clone_chars(&self.command_draft);
                    self.command = clone_chars(&self.command_draft);
                    self.command_draft = Vec::new();
                    self.history.remove(self.point);
                    self.history.insert(0, topush);
                    self.point = 0;
                    proof {
                        assert(self.hist() =~= seq![old(self).command_draft@] + hist_ensured(
                            old(self).hist(),
                            old(self).point as int,
                        ).remove(old(self).point as int));
                    }
                    let action = self.run();
                    self.update_history();
                    proof {
                        assert(self.history@.len() == self.hist().len());
                        assert(self.wf());
                    }
                    proof {
                        assert(self.hist() =~= seq![Seq::<char>::empty()] + hist_ensured(
                            old(self).hist(),
                            old(self).point as int,
                        ).remove(old(self).point as int));
                    }
                    ShellEffect::Submitted(action)
                } else if character == '\x08' {
                    let _dropped = self.command_draft.pop();
                    self.update_history();
                    proof {
                        assert(self.point == old(self).point);
                        assert(self.history@.len() == self.hist().len());
                        assert(self.hist().len() == hist_ensured(
                            old(self).hist(),
                            old(self).point as int,
                        ).len());
                        assert(self.wf());
                    }
                    ShellEffect::Redraw
                } else {
                    self.command_draft.push(character);
                    self.update_history();
                    proof {
                        assert(self.history@.len() == self.hist().len());
                        assert(self.wf());
                    }
                    ShellEffect::Echo(character)
                }
            },
            Key::Raw(name) => {
                if name == "ArrowUp".to_owned() {
                    if self.point == 0 {
                        proof {
                        assert(self.history@.len() == self.hist().len());
                        assert(self.wf());
                    }
                        return ShellEffect::Silent;
                    }
                    self.point = self.point - 1;
                    self.command_draft = clone_chars(&self.history[self.point]);
                    self.update_history();
                    proof {
                        assert(self.history@.len() == self.hist().len());
                        assert(self.wf());
                    }
                    ShellEffect::Redraw
                } else if name == "ArrowDown".to_owned() {
                    if self.command_draft.len() == 0 {
                        return ShellEffect::Silent;
                    }
                    self.command_draft = clone_chars(&self.history[self.point]);
                    self.point = self.point + 1;
                    self.check_or_add();
                    self.command_draft = clone_chars(&self.history[self.point]);
                    self.update_history();
                    proof {
                        assert(self.history@.len() == self.hist().len());
                        assert(self.wf());
                    }
                    ShellEffect::Redraw
                } else {
                    self.update_history();
                    proof {
                        assert(self.history@.len() == self.hist().len());
                        assert(self.wf());
                    }
                    ShellEffect::Redraw
                }
            },
        }
    }

    /// Dispatch the submitted line: the first token, lowercased, names the
    /// command, and everything after it is its arguments.
    pub fn run(&self) -> (action: CommandAction)
        ensures
            dispatch_rel(self.command@, action),
    {
        let tokens = split_spaces(&self.command);
        let cmd = lowered_chars(&tokens[0]);
        proof {
            assert(tokens@.map_values(|t: Vec<char>| t@)[0] == tokens@[0]@);
        }
        if cmd.len() == 0 {
            proof {
                assert(cmd@ =~= Seq::<char>::empty());
            }
            CommandAction::Nothing
        } else if cmd.len() == 4 && is4(&cmd, 'e', 'x', 'i', 't') {
            proof {
                assert(cmd@ =~= seq!['e', 'x', 'i', 't']);
            }
            CommandAction::Exit
        } else if cmd.len() == 5 && is4(&cmd, 'c', 'l', 'e', 'a') && cmd[4] == 'r' {
            proof {
                assert(cmd@ =~= seq!['c', 'l', 'e', 'a', 'r']);
            }
            CommandAction::Clear
        } else if cmd.len() == 4 && is4(&cmd, 'e', 'c', 'h', 'o') {
            proof {
                assert(cmd@ =~= seq!['e', 'c', 'h', 'o']);
            }
            let args = join_spaces(&tokens);
            CommandAction::Echo(args)
        } else if cmd.len() == 4 && is4(&cmd, 'r', 'a', 'n', 'd') {
            proof {
                assert(cmd@ =~= seq!['r', 'a', 'n', 'd']);
            }
            CommandAction::Nothing
        } else {
            proof {
                assert(cmd@ != seq!['e', 'x', 'i', 't'] && cmd@ != seq!['c', 'l', 'e', 'a', 'r']
                    && cmd@ != seq!['e', 'c', 'h', 'o'] && cmd@ != seq!['r', 'a', 'n', 'd']
                    && cmd@ != Seq::<char>::empty());
            }
            CommandAction::Unknown(cmd)
        }
    }
}

/// Whether the word starts with the four given characters.
fn is4(w: &Vec<char>, a: char, b: char, c: char, d: char) -> (r: bool)
    requires
        w@.len() >= 4,
    ensures
        r == (w@[0] == a && w@[1] == b && w@[2] == c && w@[3] == d),
{
    w[0] == a && w[1] == b && w[2] == c && w[3] == d
}

/// A copy of a line.
fn clone_chars(v: &Vec<char>) -> (r: Vec<char>)
    ensures
        r@ == v@,
{
    let mut out: Vec<char> = Vec::new();
    let mut i: usize = 0;
    while i < v.len()
        invariant
            i <= v@.len(),
            out@ =~= v@.take(i as int),
        decreases v@.len() - i,
    {
        out.push(v[i]);
        i = i + 1;
    }
    proof {
        assert(v@.take(v@.len() as int) =~= v@);
    }
    out
}

/// The line, ASCII-lowercased.
fn lowered_chars(v: &Vec<char>) -> (r: Vec<char>)
    ensures
        r@ =~= spec_lowered(v@),
{
    let mut out: Vec<char> = Vec::new();
    let mut i: usize = 0;
    while i < v.len()
        invariant
            i <= v@.len(),
            out@.len() == i,
            forall|j: int| 0 <= j < i ==> out@[j] == spec_lower_char(v@[j]),
        decreases v@.len() - i,
    {
        let c = v[i];
        let lc = if c == 'A' {
            'a'
        } else if c == 'B' {
            'b'
        } else if c == 'C' {
            'c'
        } else if c == 'D' {
            'd'
        } else if c == 'E' {
            'e'
        } else if c == 'F' {
            'f'
        } else if c == 'G' {
            'g'
        } else if c == 'H' {
            'h'
        } else if c == 'I' {
            'i'
        } else if c == 'J' {
            'j'
        } else if c == 'K' {
            'k'
        } else if c == 'L' {
            'l'
        } else if c == 'M' {
            'm'
        } else if c == 'N' {
            'n'
        } else if c == 'O' {
            'o'
        } else if c == 'P' {
            'p'
        } else if c == 'Q' {
            'q'
        } else if c == 'R' {
            'r'
        } else if c == 'S' {
            's'
        } else if c == 'T' {
            't'
        } else if c == 'U' {
            'u'
        } else if c == 'V' {
            'v'
        } else if c == 'W' {
            'w'
        } else if c == 'X' {
            'x'
        } else if c == 'Y' {
            'y'
        } else if c == 'Z' {
            'z'
        } else {
            c
        };
        out.push(lc);
        i = i + 1;
    }
    out
}

/// The tokens of the line, split at every space.
fn split_spaces(chars: &Vec<char>) -> (r: Vec<Vec<char>>)
    ensures
        r@.map_values(|t: Vec<char>| t@) =~= spec_split(chars@),
        r@.len() >= 1,
{
    let ghost s = chars@;
    let mut tokens: Vec<Vec<char>> = Vec::new();
    let mut current: Vec<char> = Vec::new();
    let ghost mut start: int = 0;
    let mut i: usize = 0;
    while i < chars.len()
        invariant
            chars@ == s,
            0 <= start <= i <= s.len(),
            current@ == s.subrange(start, i as int),
            spec_split(s) =~= tokens@.map_values(|t: Vec<char>| t@) + spec_split_from(
                s,
                i as int,
                start,
            ),
        decreases s.len() - i,
    {
        let c = chars[i];
        if c == ' ' {
            let ghost pre_tokens = tokens@;
            tokens.push(current);
            current = Vec::new();
            proof {
                assert(tokens@.map_values(|t: Vec<char>| t@) =~= pre_tokens.map_values(
                    |t: Vec<char>| t@,
                ).push(s.subrange(start, i as int)));
                assert(spec_split_from(s, i as int, start) == seq![s.subrange(start, i as int)]
                    + spec_split_from(s, i as int + 1, i as int + 1));
                start = i as int + 1;
                assert(current@ =~= s.subrange(start, i as int + 1));
            }
        } else {
            proof {
                assert(s.subrange(start, i as int + 1) =~= s.subrange(start, i as int).push(
                    s[i as int],
                ));
                assert(spec_split_from(s, i as int, start) == spec_split_from(
                    s,
                    i as int + 1,
                    start,
                ));
            }
            current.push(c);
        }
        i = i + 1;
    }
    let ghost pre_tokens = tokens@;
    tokens.push(current);
    proof {
        assert(s.subrange(start, s.len() as int) == current@);
        assert(spec_split_from(s, s.len() as int, start) == seq![s.subrange(start, s.len() as int)]);
        assert(tokens@.map_values(|t: Vec<char>| t@) =~= pre_tokens.map_values(|t: Vec<char>| t@)
            .push(current@));
    }
    tokens
}

/// One more token joins with a space in front — unless it is the first.
proof fn lemma_join_snoc(tokens: Seq<Seq<char>>, t: Seq<char>)
    ensures
        tokens.len() == 0 ==> spec_join_spaces(tokens.push(t)) == t,
        tokens.len() > 0 ==> spec_join_spaces(tokens.push(t)) =~= spec_join_spaces(tokens) + seq![
            ' ',
        ] + t,
    decreases tokens.len(),
{
    if tokens.len() == 0 {
        assert(tokens.push(t)[0] == t);
    } else if tokens.len() == 1 {
        assert(tokens.push(t)[0] == tokens[0]);
        assert(tokens.push(t).drop_first() =~= seq![t]);
        assert(spec_join_spaces(seq![t]) == seq![t][0]);
    } else {
        assert(tokens.push(t)[0] == tokens[0]);
        assert(tokens.push(t).drop_first() =~= tokens.drop_first().push(t));
        lemma_join_snoc(tokens.drop_first(), t);
    }
}

/// The arguments — every token after the first — joined with spaces.
fn join_spaces(tokens: &Vec<Vec<char>>) -> (r: Vec<char>)
    requires
        tokens@.len() >= 1,
    ensures
        r@ =~= spec_join_spaces(tokens@.map_values(|t: Vec<char>| t@).drop_first()),
{
    let ghost all = tokens@.map_values(|t: Vec<char>| t@).drop_first();
    let mut out: Vec<char> = Vec::new();
    let mut i: usize = 1;
    while i < tokens.len()
        invariant
            1 <= i <= tokens@.len(),
            all == tokens@.map_values(|t: Vec<char>| t@).drop_first(),
            out@ =~= spec_join_spaces(all.take(i - 1)),
        decreases tokens@.len() - i,
    {
        let ghost before = all.take(i - 1);
        if i > 1 {
            out.push(' ');
        }
        let token = &tokens[i];
        let mut j: usize = 0;
        while j < token.len()
            invariant
                j <= token@.len(),
                token@ == all[i - 1],
                i >= 1,
                out@ =~= (if i > 1 {
                    spec_join_spaces(before) + seq![' ']
                } else {
                    spec_join_spaces(before)
                }) + token@.take(j as int),
            decreases token@.len() - j,
        {
            out.push(token[j]);
            j = j + 1;
        }
        proof {
            assert(token@.take(token@.len() as int) =~= token@);
            assert(all.take(i as int) =~= before.push(all[i - 1]));
            lemma_join_snoc(before, all[i - 1]);
        }
        i = i + 1;
    }
    proof {
        assert(all.take(all.len() as int) =~= all);
        if all.len() == 0 {
            assert(out@ =~= Seq::<char>::empty());
        }
    }
    out
}

} // verus!
