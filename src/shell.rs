//! The line editor and command parser of the kernel shell.

use vstd::prelude::*;
use crate::stack_vec::StackVec;

verus! {

/// Bell: rung on input that cannot be taken.
pub const BEL: u8 = 0x07;

/// Backspace.
pub const BS: u8 = 0x08;

/// Delete, treated as backspace.
pub const DEL: u8 = 0x7F;

/// Line feed: ends a line.
pub const NL: u8 = 0x0A;

/// Carriage return: ends a line.
pub const CR: u8 = 0x0D;

/// The separator between arguments.
pub const SPACE: u8 = 0x20;

/// What the console should do after a key was fed to the line editor.
#[derive(Clone, Copy, Debug, PartialEq, Eq, Structural)]
pub enum LineEvent {
    /// Ring the bell; the line is unchanged.
    Bell,
    /// Echo the byte, which was appended to the line.
    Echo(u8),
    /// Erase the last character on screen; it was removed from the line.
    Erase,
    /// The line is complete.
    Submit,
}

/// Feeds one input byte to the line being edited.
///
/// A non-ASCII byte rings the bell. Backspace and delete remove the last
/// byte, or ring the bell on an empty line. Line feed and carriage return end
/// the line. Any other byte is appended, or rings the bell when the line is
/// full.
pub fn edit_line(line: &mut StackVec<'_, u8>, input: u8) -> (r: LineEvent)
    requires
        old(line).wf(),
    ensures
        final(line).wf(),
        final(line).spec_capacity() == old(line).spec_capacity(),
        input >= 0x80 ==> r == LineEvent::Bell && final(line)@ == old(line)@,
        input < 0x80 && (input == BS || input == DEL) ==> if old(line)@.len() > 0 {
            r == LineEvent::Erase && final(line)@ == old(line)@.drop_last()
        } else {
            r == LineEvent::Bell && final(line)@ == old(line)@
        },
        input == NL || input == CR ==> r == LineEvent::Submit && final(line)@ == old(line)@,
        input < 0x80 && input != BS && input != DEL && input != NL && input != CR ==> if old(
            line,
        )@.len() < old(line).spec_capacity() {
            r == LineEvent::Echo(input) && final(line)@ == old(line)@.push(input)
        } else {
            r == LineEvent::Bell && final(line)@ == old(line)@
        },
{
    if input >= 0x80 {
        return LineEvent::Bell;
    }
    if input == BS || input == DEL {
        match line.pop() {
            Some(_) => LineEvent::Erase,
            None => LineEvent::Bell,
        }
    } else if input == NL || input == CR {
        LineEvent::Submit
    } else {
        match line.push(input) {
            Ok(_) => LineEvent::Echo(input),
            Err(_) => LineEvent::Bell,
        }
    }
}

/// The state of a left-to-right scan for words: the finished words and
/// the word being read.
pub type WordScan = (Seq<Seq<u8>>, Seq<u8>);

/// The scan state after reading byte `b`: a space ends the current word,
/// if any; any other byte extends it.
pub open spec fn scan_step(st: WordScan, b: u8) -> WordScan {
    if b == SPACE {
        if st.1.len() > 0 {
            (st.0.push(st.1), Seq::empty())
        } else {
            st
        }
    } else {
        (st.0, st.1.push(b))
    }
}

/// The scan state after reading all of `s`.
pub open spec fn scan_words(s: Seq<u8>) -> WordScan
    decreases s.len(),
{
    if s.len() == 0 {
        (Seq::empty(), Seq::empty())
    } else {
        scan_step(scan_words(s.drop_last()), s.last())
    }
}

/// The words of `s`: its maximal runs of bytes other than a space.
pub open spec fn words(s: Seq<u8>) -> Seq<Seq<u8>> {
    let st = scan_words(s);
    if st.1.len() > 0 {
        st.0.push(st.1)
    } else {
        st.0
    }
}

/// Why a command line was not parsed.
#[derive(Clone, Copy, Debug, PartialEq, Eq, Structural)]
pub enum Error {
    /// The line holds no argument.
    Empty,
    /// The line holds more arguments than there is room for.
    TooManyArgs,
}

/// A parsed command line: its arguments, the first being the command.
pub struct Command<'a> {
    pub args: StackVec<'a, &'a [u8]>,
}

/// The arguments of a stack vector as byte sequences.
pub open spec fn arg_bytes(args: Seq<&[u8]>) -> Seq<Seq<u8>> {
    args.map_values(|a: &[u8]| a@)
}

impl<'a> Command<'a> {
    /// Parses the words of `s` into arguments, using `buf` to hold them.
    ///
    /// Fails with `TooManyArgs` when `s` has more words than `buf` holds, and
    /// otherwise with `Empty` when it has none.
    pub fn parse(s: &'a [u8], buf: &'a mut [&'a [u8]]) -> (r: Result<Command<'a>, Error>)
        ensures
            words(s@).len() > old(buf)@.len() ==> r == Err::<Command<'a>, Error>(Error::TooManyArgs),
            words(s@).len() == 0 ==> r == Err::<Command<'a>, Error>(Error::Empty),
            0 < words(s@).len() <= old(buf)@.len() ==> r is Ok,
            r matches Ok(c) ==> c.args.wf() && arg_bytes(c.args@) == words(s@),
    {
        let mut args = StackVec::new(buf);
        let mut start: usize = 0;
        let mut i: usize = 0;
        while i < s.len()
            invariant
                args.wf(),
                args.spec_capacity() == old(buf)@.len(),
                start <= i <= s@.len(),
                scan_words(s@.subrange(0, i as int)) == (arg_bytes(args@), s@.subrange(
                    start as int,
                    i as int,
                )),
            decreases s@.len() - i,
        {
            proof {
                assert(s@.subrange(0, i + 1).drop_last() =~= s@.subrange(0, i as int));
                assert(scan_words(s@.subrange(0, i + 1)) == scan_step(
                    scan_words(s@.subrange(0, i as int)),
                    s@[i as int],
                ));
            }
            if s[i] == SPACE {
                if start < i {
                    let (front, _) = s.split_at(i);
                    let (_, word) = front.split_at(start);
                    assert(word@ =~= s@.subrange(start as int, i as int));
                    let ghost before = args@;
                    match args.push(word) {
                        Ok(_) => {},
                        Err(_) => {
                            proof {
                                lemma_words_grow(s@, (i + 1) as nat);
                                assert(arg_bytes(before).push(word@) =~= scan_words(s@.subrange(0, i + 1)).0);
                            }
                            return Err(Error::TooManyArgs);
                        },
                    }
                    proof {
                        assert(arg_bytes(args@) =~= arg_bytes(before).push(word@));
                    }
                }
                start = i + 1;
                proof {
                    assert(s@.subrange(start as int, i + 1) =~= Seq::<u8>::empty());
                }
            } else {
                proof {
                    assert(s@.subrange(start as int, i + 1) =~= s@.subrange(start as int, i as int).push(s@[i as int]));
                }
            }
            i += 1;
        }
        assert(s@.subrange(0, s@.len() as int) =~= s@);
        if start < s.len() {
            let (_, word) = s.split_at(start);
            assert(word@ =~= s@.subrange(start as int, s@.len() as int));
            let ghost before = args@;
            match args.push(word) {
                Ok(_) => {},
                Err(_) => {
                    return Err(Error::TooManyArgs);
                },
            }
            proof {
                assert(arg_bytes(args@) =~= arg_bytes(before).push(word@));
            }
        }
        proof {
            args.lemma_len_bounded();
        }
        if args.is_empty() {
            return Err(Error::Empty);
        }
        Ok(Command { args })
    }

    /// The command: the first argument.
    pub fn path(&self) -> (r: &[u8])
        requires
            self.args.wf(),
            self.args@.len() > 0,
        ensures
            r == self.args@[0],
    {
        self.args.as_slice()[0]
    }
}

/// What the shell does with a submitted line.
#[derive(Debug)]
pub enum Reply<'a> {
    /// Nothing: the line was blank.
    Nothing,
    /// Report that the line has too many arguments.
    TooManyArgs,
    /// Print the text after the first five bytes of the line.
    Echo(&'a [u8]),
    /// Stop the kernel.
    Panic,
    /// Report an unknown command.
    Unknown(&'a [u8]),
}

/// Whether `a` holds exactly the bytes of `b`.
fn bytes_eq(a: &[u8], b: &[u8]) -> (r: bool)
    ensures
        r == (a@ == b@),
{
    if a.len() != b.len() {
        return false;
    }
    let mut i: usize = 0;
    while i < a.len()
        invariant
            a@.len() == b@.len(),
            i <= a@.len(),
            forall|k: int| 0 <= k < i ==> a@[k] == b@[k],
        decreases a@.len() - i,
    {
        if a[i] != b[i] {
            return false;
        }
        i += 1;
    }
    assert(a@ =~= b@);
    true
}

/// The bytes of a line after its first five, or none when it is shorter.
pub open spec fn echo_text(line: Seq<u8>) -> Seq<u8> {
    if line.len() >= 5 {
        line.subrange(5, line.len() as int)
    } else {
        Seq::empty()
    }
}

/// Decides the shell's reply to a submitted line, using `buf` to hold its
/// arguments: nothing for a blank line, an error when the arguments do not
/// fit, and for a command the action it names: `echo` prints the rest of
/// the line, `panic` stops the kernel, anything else is unknown.
pub fn respond<'a>(line: &'a [u8], buf: &'a mut [&'a [u8]]) -> (r: Reply<'a>)
    ensures
        words(line@).len() == 0 ==> r is Nothing,
        words(line@).len() > old(buf)@.len() ==> r is TooManyArgs,
        0 < words(line@).len() <= old(buf)@.len() ==> {
            let cmd = words(line@)[0];
            if cmd == seq![0x65u8, 0x63u8, 0x68u8, 0x6fu8] {
                r matches Reply::Echo(t) && t@ == echo_text(line@)
            } else if cmd == seq![0x70u8, 0x61u8, 0x6eu8, 0x69u8, 0x63u8] {
                r is Panic
            } else {
                r matches Reply::Unknown(p) && p@ == cmd
            }
        },
{
    match Command::parse(line, buf) {
        Err(Error::Empty) => Reply::Nothing,
        Err(Error::TooManyArgs) => Reply::TooManyArgs,
        Ok(cmd) => {
            proof {
                cmd.args.lemma_len_bounded();
            }
            let args = cmd.args.into_slice();
            let path: &'a [u8] = args[0];
            assert(path@ == words(line@)[0]);
            let echo: [u8; 4] = [0x65, 0x63, 0x68, 0x6f];
            let stop: [u8; 5] = [0x70, 0x61, 0x6e, 0x69, 0x63];
            assert(echo@ =~= seq![0x65u8, 0x63u8, 0x68u8, 0x6fu8]);
            assert(stop@ =~= seq![0x70u8, 0x61u8, 0x6eu8, 0x69u8, 0x63u8]);
            if bytes_eq(path, echo.as_slice()) {
                if line.len() >= 5 {
                    let (_, rest) = line.split_at(5);
                    Reply::Echo(rest)
                } else {
                    let (none, _) = line.split_at(0);
                    assert(none@ =~= Seq::<u8>::empty());
                    Reply::Echo(none)
                }
            } else if bytes_eq(path, stop.as_slice()) {
                Reply::Panic
            } else {
                Reply::Unknown(path)
            }
        },
    }
}

/// The words finished after a prefix are never more than the words of the
/// whole line.
proof fn lemma_words_grow(s: Seq<u8>, n: nat)
    requires
        n <= s.len(),
    ensures
        scan_words(s.subrange(0, n as int)).0.len() <= words(s).len(),
    decreases s.len() - n,
{
    if n < s.len() {
        lemma_words_grow(s, n + 1);
        assert(s.subrange(0, (n + 1) as int).drop_last() =~= s.subrange(0, n as int));
    } else {
        assert(s.subrange(0, n as int) =~= s);
    }
}

} // verus!
