//! Rendering of an error and its chain of causes as a multi-line report.

use vstd::prelude::*;
use vstd::std_specs::iter::IteratorSpec;
use vstd::string::StrSliceExecFns;
use vstd::string::StringExecFns;

verus! {

broadcast use {vstd::std_specs::iter::group_iter_axioms, vstd::string::group_string_axioms};

/// The blank margin that continuation lines of a cause are indented by.
pub open spec fn margin() -> Seq<char> {
    seq![' ', ' ', ' ', ' ', ' ', ' ']
}

/// What one character of a cause's message becomes in the report: a line
/// break is followed by the margin, any other character stands as it is.
pub open spec fn indent_char(c: char) -> Seq<char> {
    if c == '\n' {
        seq!['\n'] + margin()
    } else {
        seq![c]
    }
}

/// A message with every line break followed by the margin.
pub open spec fn indent(s: Seq<char>) -> Seq<char>
    decreases s.len(),
{
    if s.len() == 0 {
        Seq::empty()
    } else {
        indent(s.drop_last()) + indent_char(s.last())
    }
}

/// Appends `msg` to `out`, with each line after the first indented by the margin.
pub fn write_indented(out: &mut String, msg: &str)
    ensures
        final(out)@ == old(out)@ + indent(msg@),
{
    let len = msg.unicode_len();
    let mut chars = msg.chars();
    let mut i: usize = 0;
    let mut start: usize = 0;
    loop
        invariant
            start <= i <= len == msg@.len(),
            chars.remaining() == msg@.skip(i as int),
            old(out)@ + indent(msg@.take(i as int)) == out@ + msg@.subrange(start as int, i as int),
        decreases msg@.len() - i,
    {
        let next = chars.next();
        match next {
            None => {
                let rest = msg.substring_char(start, i);
                out.append(rest);
                proof {
                    assert(msg@.take(i as int) =~= msg@);
                }
                return;
            },
            Some(c) => {
                let ghost before = out@;
                proof {
                    assert(i < msg@.len());
                    assert(msg@.skip(i as int)[0] == msg@[i as int]);
                    assert(msg@.take(i + 1).drop_last() =~= msg@.take(i as int));
                    assert(msg@.take(i + 1).last() == c);
                    assert(indent(msg@.take(i + 1)) == indent(msg@.take(i as int)) + indent_char(c));
                }
                if c == '\n' {
                    let line = msg.substring_char(start, i);
                    out.append(line);
                    out.append("\n      ");
                    proof {
                        reveal_strlit("\n      ");
                        assert("\n      "@ =~= indent_char(c));
                        assert(msg@.subrange(i + 1, i + 1) =~= Seq::<char>::empty());
                        assert(out@ =~= before + msg@.subrange(start as int, i as int) + indent_char(c));
                        assert(old(out)@ + indent(msg@.take(i + 1)) =~= out@ + msg@.subrange(i + 1, i + 1));
                    }
                    start = i + 1;
                } else {
                    proof {
                        assert(msg@.subrange(start as int, i + 1) =~= msg@.subrange(start as int, i as int) + indent_char(c));
                        assert(old(out)@ + indent(msg@.take(i + 1)) =~= (old(out)@ + indent(msg@.take(i as int))) + indent_char(c));
                        assert(out@ + msg@.subrange(start as int, i + 1) =~= (out@ + msg@.subrange(start as int, i as int)) + indent_char(c));
                    }
                }
                i = i + 1;
            },
        }
    }
}

/// An error message together with the error that caused it, if any.
pub struct ErrorNode {
    pub message: String,
    pub source: Option<Box<ErrorNode>>,
}

/// The messages of `e` and of every error below it, `e` first.
pub open spec fn chain_of(e: ErrorNode) -> Seq<Seq<char>>
    decreases e,
{
    match e.source {
        Some(b) => seq![e.message@] + chain_of(*b),
        None => seq![e.message@],
    }
}

/// The messages of the causes of `e`, the nearest cause first.
pub open spec fn causes_of(e: ErrorNode) -> Seq<Seq<char>> {
    match e.source {
        Some(b) => chain_of(*b),
        None => Seq::empty(),
    }
}

impl ErrorNode {
    /// An error with no cause.
    pub fn new(message: String) -> (r: ErrorNode)
        ensures
            r.message == message,
            r.source is None,
    {
        ErrorNode { message, source: None }
    }

    /// An error caused by `source`.
    pub fn caused_by(message: String, source: ErrorNode) -> (r: ErrorNode)
        ensures
            r.message == message,
            r.source == Some(Box::new(source)),
    {
        ErrorNode { message, source: Some(Box::new(source)) }
    }

    /// The message of this error.
    pub fn message(&self) -> (r: &str)
        ensures
            r@ == self.message@,
    {
        self.message.as_str()
    }

    /// The error that caused this one, if any.
    pub fn source(&self) -> (r: Option<&ErrorNode>)
        ensures
            r is Some <==> self.source is Some,
            r is Some ==> *r->0 == *self.source->0,
    {
        match &self.source {
            Some(b) => Some(&**b),
            None => None,
        }
    }
}

/// Walks an error chain, from a given error down to the last cause.
pub struct Source<'a> {
    current: Option<&'a ErrorNode>,
}

impl<'a> Source<'a> {
    /// The error that the walk stands on, if any is left.
    pub closed spec fn current_error(&self) -> Option<ErrorNode> {
        match self.current {
            Some(e) => Some(*e),
            None => None,
        }
    }

    /// The messages that the walk has still to yield, in order.
    pub closed spec fn remaining(&self) -> Seq<Seq<char>> {
        match self.current {
            Some(e) => chain_of(*e),
            None => Seq::empty(),
        }
    }

    /// A walk that starts at `error`.
    pub fn new(error: &'a ErrorNode) -> (r: Source<'a>)
        ensures
            r.current_error() == Some(*error),
            r.remaining() == chain_of(*error),
    {
        Source { current: Some(error) }
    }

    /// The error that the walk stands on, if any is left; the walk then moves
    /// on to that error's cause.
    pub fn next(&mut self) -> (r: Option<&'a ErrorNode>)
        ensures
            r is Some <==> old(self).current_error() is Some,
            r is Some ==> old(self).current_error() == Some(*r->0),
            final(self).current_error() == match old(self).current_error() {
                Some(e) => match e.source {
                    Some(b) => Some(*b),
                    None => None,
                },
                None => None,
            },
            r is None <==> old(self).remaining().len() == 0,
            r is None ==> final(self).remaining() == old(self).remaining(),
            r is Some ==> old(self).remaining() == seq![r->0.message@] + final(self).remaining(),
    {
        let current = self.current;
        self.current = match current {
            Some(e) => e.source(),
            None => None,
        };
        current
    }

    /// Bounds on the number of errors left: at least one while the walk
    /// stands on an error, none at the end.
    pub fn size_hint(&self) -> (r: (usize, Option<usize>))
        ensures
            self.current_error() is Some ==> r == (1usize, None::<usize>),
            self.current_error() is None ==> r == (0usize, Some(0usize)),
            self.remaining().len() > 0 ==> r == (1usize, None::<usize>),
            self.remaining().len() == 0 ==> r == (0usize, Some(0usize)),
    {
        if self.current.is_some() {
            (1, None)
        } else {
            (0, Some(0))
        }
    }
}

/// The decimal digits, by value.
pub open spec fn digits() -> Seq<char> {
    seq!['0', '1', '2', '3', '4', '5', '6', '7', '8', '9']
}

/// `n` written in decimal, with no leading zeros.
pub open spec fn decimal(n: nat) -> Seq<char>
    decreases n,
{
    if n < 10 {
        seq![digits()[n as int]]
    } else {
        decimal(n / 10).push(digits()[(n % 10) as int])
    }
}

/// `s` preceded by as many spaces as it takes to fill `width` characters.
pub open spec fn right_aligned(s: Seq<char>, width: nat) -> Seq<char> {
    if s.len() >= width {
        s
    } else {
        Seq::new((width - s.len()) as nat, |_k: int| ' ') + s
    }
}

/// What stands before the message of the cause at position `i`: its ordinal,
/// right-aligned in four characters, and a colon when the causes are
/// numbered; the margin when they are not.
pub open spec fn prefix(i: nat, numbered: bool) -> Seq<char> {
    if numbered {
        right_aligned(decimal(i), 4) + seq![':', ' ']
    } else {
        margin()
    }
}

/// The number of digits of `n` in decimal.
fn decimal_width(n: usize) -> (r: usize)
    ensures
        r == decimal(n as nat).len(),
        r <= n + 1,
    decreases n,
{
    if n < 10 {
        1
    } else {
        decimal_width(n / 10) + 1
    }
}

/// Appends `n` in decimal to `out`.
fn write_decimal(out: &mut String, n: usize)
    ensures
        final(out)@ == old(out)@ + decimal(n as nat),
    decreases n,
{
    if n >= 10 {
        write_decimal(out, n / 10);
    }
    let digit_chars = "0123456789";
    proof {
        reveal_strlit("0123456789");
        assert(digit_chars@ =~= digits());
    }
    let d = digit_chars.substring_char(n % 10, n % 10 + 1);
    out.append(d);
    proof {
        assert(d@ =~= seq![digits()[(n % 10) as int]]);
        assert(out@ =~= old(out)@ + decimal(n as nat));
    }
}

/// Appends the numbered prefix of the cause at position `i` to `out`.
fn write_ordinal(out: &mut String, i: usize)
    ensures
        final(out)@ == old(out)@ + prefix(i as nat, true),
{
    let width = decimal_width(i);
    let pad: usize = if width < 4 { 4 - width } else { 0 };
    let mut k: usize = 0;
    while k < pad
        invariant
            k <= pad,
            pad == if width < 4 { 4 - width } else { 0 },
            out@ == old(out)@ + Seq::new(k as nat, |_j: int| ' '),
        decreases pad - k,
    {
        out.append(" ");
        proof {
            reveal_strlit(" ");
            assert(Seq::new((k + 1) as nat, |_j: int| ' ') =~= Seq::new(k as nat, |_j: int| ' ') + " "@);
        }
        k = k + 1;
    }
    write_decimal(out, i);
    out.append(": ");
    proof {
        reveal_strlit(": ");
        let spaces = Seq::new(pad as nat, |_j: int| ' ');
        if width >= 4 {
            assert(spaces =~= Seq::<char>::empty());
        }
        assert(out@ =~= old(out)@ + prefix(i as nat, true));
    }
}


/// The line that opens the list of causes.
pub open spec fn header() -> Seq<char> {
    "\n\nCaused by:"@
}

/// The lines of the report that list `causes`, each on a line of its own.
pub open spec fn entries(causes: Seq<Seq<char>>, numbered: bool) -> Seq<char>
    decreases causes.len(),
{
    if causes.len() == 0 {
        Seq::empty()
    } else {
        let last = (causes.len() - 1) as nat;
        entries(causes.take(last as int), numbered) + seq!['\n'] + prefix(last, numbered) + indent(
            causes[last as int],
        )
    }
}

/// The report of an error whose own message is `message` and whose causes
/// have the messages `causes`, the nearest first. The causes are numbered
/// when there are two or more.
pub open spec fn report_text(message: Seq<char>, causes: Seq<Seq<char>>) -> Seq<char> {
    if causes.len() == 0 {
        message
    } else {
        message + header() + entries(causes, causes.len() > 1)
    }
}

/// An error chain is never empty: it holds at least the error itself.
proof fn lemma_chain_nonempty(e: ErrorNode)
    ensures
        chain_of(e).len() >= 1,
        chain_of(e)[0] == e.message@,
        chain_of(e).len() > 1 <==> e.source is Some,
    decreases e,
{
    match e.source {
        Some(b) => {
            lemma_chain_nonempty(*b);
        },
        None => {},
    }
}

/// An error, wrapped so that it can be rendered with its chain of causes.
#[derive(Debug)]
pub struct Report<E> {
    pub error: E,
}

impl<E> From<E> for Report<E> {
    fn from(error: E) -> (r: Report<E>) {
        Report { error }
    }
}

impl<E> vstd::std_specs::convert::FromSpecImpl<E> for Report<E> {
    open spec fn obeys_from_spec() -> bool {
        true
    }

    open spec fn from_spec(v: E) -> Report<E> {
        Report { error: v }
    }
}

impl Report<ErrorNode> {
    /// The text of the report: the error's message and, when it has causes,
    /// a blank line, the line `Caused by:` and one entry per cause.
    pub fn render(&self) -> (r: String)
        requires
            causes_of(self.error).len() <= usize::MAX,
        ensures
            r@ == report_text(self.error.message@, causes_of(self.error)),
    {
        let error = &self.error;
        let mut out = error.message.clone();
        match error.source() {
            None => {},
            Some(cause) => {
                out.append("\n\nCaused by:");
                let ghost causes = causes_of(self.error);
                proof {
                    lemma_chain_nonempty(*cause);
                }
                let numbered = cause.source().is_some();
                let mut walk = Source::new(cause);
                let mut ind: usize = 0;
                loop
                    invariant
                        causes == causes_of(self.error),
                        causes.len() <= usize::MAX,
                        numbered == (causes.len() > 1),
                        ind <= causes.len(),
                        walk.remaining() == causes.skip(ind as int),
                        out@ == self.error.message@ + header() + entries(
                            causes.take(ind as int),
                            numbered,
                        ),
                    ensures
                        ind == causes.len(),
                        out@ == self.error.message@ + header() + entries(
                            causes.take(ind as int),
                            numbered,
                        ),
                    decreases walk.remaining().len(),
                {
                    match walk.next() {
                        None => {
                            break;
                        },
                        Some(e) => {
                            let ghost before = out@;
                            out.append("\n");
                            if numbered {
                                write_ordinal(&mut out, ind);
                            } else {
                                out.append("      ");
                            }
                            write_indented(&mut out, e.message());
                            proof {
                                reveal_strlit("\n");
                                reveal_strlit("      ");
                                assert("      "@ =~= margin());
                                assert(causes.skip(ind as int)[0] == causes[ind as int]);
                                assert(causes.skip(ind as int).drop_first() =~= causes.skip(ind + 1));
                                assert(causes.take(ind + 1).take(ind as int) =~= causes.take(ind as int));
                                assert(out@ =~= before + seq!['\n'] + prefix(ind as nat, numbered) + indent(causes[ind as int]));
                            }
                            ind = ind + 1;
                        },
                    }
                }
                proof {
                    assert(causes.take(ind as int) =~= causes);
                }
            },
        }
        out
    }
}


/// The line of a report for the cause at position `i`, with message `msg`,
/// when the causes are numbered.
pub open spec fn numbered_entry(i: nat, msg: Seq<char>) -> Seq<char> {
    seq!['\n'] + right_aligned(decimal(i), 4) + seq![':', ' '] + indent(msg)
}

/// Indenting a concatenation indents each part on its own.
proof fn lemma_indent_concat(a: Seq<char>, b: Seq<char>)
    ensures
        indent(a + b) == indent(a) + indent(b),
    decreases b.len(),
{
    if b.len() == 0 {
        assert(a + b =~= a);
        assert(indent(a) + indent(b) =~= indent(a));
    } else {
        lemma_indent_concat(a, b.drop_last());
        assert((a + b).drop_last() =~= a + b.drop_last());
        assert((a + b).last() == b.last());
        assert(indent(a + b) =~= indent(a) + indent(b));
    }
}

/// Numbered entries are the numbered lines of the causes, one after the other.
proof fn lemma_entries_numbered(causes: Seq<Seq<char>>)
    ensures
        entries(causes, true) == Seq::new(
            causes.len(),
            |i: int| numbered_entry(i as nat, causes[i]),
        ).flatten(),
    decreases causes.len(),
{
    let lines = Seq::new(causes.len(), |i: int| numbered_entry(i as nat, causes[i]));
    if causes.len() == 0 {
        assert(lines.flatten() =~= Seq::<char>::empty());
    } else {
        let n = causes.len() - 1;
        let front = causes.take(n as int);
        lemma_entries_numbered(front);
        assert(lines.drop_last() =~= Seq::new(front.len(), |i: int| numbered_entry(i as nat, front[i])));
        assert(lines =~= lines.drop_last().push(lines.last()));
        lines.drop_last().lemma_flatten_push(lines.last());
        assert(entries(causes, true) =~= lines.flatten());
    }
}

/// A number below ten thousand takes at most four decimal digits.
proof fn lemma_decimal_width(n: nat)
    ensures
        decimal(n).len() >= 1,
        n < 10 ==> decimal(n).len() == 1,
        n < 100 ==> decimal(n).len() <= 2,
        n < 1000 ==> decimal(n).len() <= 3,
        n < 10000 ==> decimal(n).len() <= 4,
    decreases n,
{
    if n >= 10 {
        lemma_decimal_width(n / 10);
    }
}

/// An error with no cause is reported as its own message, and nothing more.
pub proof fn law_no_cause(e: ErrorNode)
    requires
        e.source is None,
    ensures
        report_text(e.message@, causes_of(e)) == e.message@,
{
}

/// An error with exactly one cause is reported as its message, a blank line,
/// `Caused by:`, and the cause's message on the next line after the margin,
/// with every line break in it followed by the margin.
pub proof fn law_single_cause(e: ErrorNode)
    requires
        e.source is Some,
        e.source->0.source is None,
    ensures
        report_text(e.message@, causes_of(e)) == e.message@ + "\n\nCaused by:\n      "@ + indent(
            e.source->0.message@,
        ),
{
    let causes = causes_of(e);
    assert(causes =~= seq![e.source->0.message@]);
    assert(causes.take(0) =~= Seq::<Seq<char>>::empty());
    reveal_strlit("\n\nCaused by:");
    reveal_strlit("\n\nCaused by:\n      ");
    assert(entries(causes.take(0), false) =~= Seq::<char>::empty());
    assert(entries(causes, false) =~= seq!['\n'] + margin() + indent(e.source->0.message@));
    assert("\n\nCaused by:\n      "@ =~= header() + seq!['\n'] + margin());
    assert(report_text(e.message@, causes) =~= e.message@ + "\n\nCaused by:\n      "@ + indent(
        e.source->0.message@,
    ));
}

/// With two or more causes, each cause has a line of its own, nearest cause
/// first: a line break, its ordinal right-aligned in four characters, a colon
/// and a space, then its message with every line break followed by the margin.
/// For every ordinal below ten thousand the margin is exactly as wide as that
/// prefix, so continuation lines align under the message.
pub proof fn law_numbered_causes(e: ErrorNode)
    requires
        causes_of(e).len() >= 2,
    ensures
        report_text(e.message@, causes_of(e)) == e.message@ + header() + Seq::new(
            causes_of(e).len(),
            |i: int| numbered_entry(i as nat, causes_of(e)[i]),
        ).flatten(),
        forall|i: nat| i < 10000 ==> #[trigger] prefix(i, true).len() == margin().len(),
{
    lemma_entries_numbered(causes_of(e));
    assert forall|i: nat| i < 10000 implies #[trigger] prefix(i, true).len() == margin().len() by {
        lemma_decimal_width(i);
    }
}

/// Rendering depends on the error chain alone: an unchanged chain is
/// reported the same way every time.
pub proof fn law_report_deterministic(first: ErrorNode, second: ErrorNode)
    requires
        first == second,
    ensures
        report_text(first.message@, causes_of(first)) == report_text(
            second.message@,
            causes_of(second),
        ),
{
}

/// A line break inside a cause's message is followed by the margin, so
/// each line of the message lines up under the first one.
pub proof fn law_line_break_indented(before: Seq<char>, after: Seq<char>)
    ensures
        indent(before + seq!['\n'] + after) == indent(before) + seq!['\n'] + margin() + indent(
            after,
        ),
{
    lemma_indent_concat(before + seq!['\n'], after);
    lemma_indent_concat(before, seq!['\n']);
    assert(seq!['\n'].drop_last() =~= Seq::<char>::empty());
    assert(seq!['\n'].last() == '\n');
    assert(indent(Seq::<char>::empty()) =~= Seq::<char>::empty());
    assert(indent(seq!['\n']) =~= seq!['\n'] + margin());
}


/// The entries of the first `j` causes begin the entries of all of them.
proof fn lemma_entries_prefix(causes: Seq<Seq<char>>, j: int, numbered: bool)
    requires
        0 <= j <= causes.len(),
    ensures
        entries(causes.take(j), numbered).is_prefix_of(entries(causes, numbered)),
    decreases causes.len(),
{
    if j == causes.len() {
        assert(causes.take(j) =~= causes);
    } else {
        let front = causes.take(causes.len() - 1);
        lemma_entries_prefix(front, j, numbered);
        assert(front.take(j) =~= causes.take(j));
    }
}

/// Each cause has its entry in the report, in chain order: after the root
/// message, the header and the entries of the causes before it come a line
/// break, the cause's prefix, and its message with every line break followed
/// by the margin, so each line of the message lines up under its own prefix.
pub proof fn law_cause_entry(message: Seq<char>, causes: Seq<Seq<char>>, k: int)
    requires
        0 <= k < causes.len(),
    ensures
        ({
            let numbered = causes.len() > 1;
            let before = message + header() + entries(causes.take(k), numbered);
            let entry = seq!['\n'] + prefix(k as nat, numbered) + indent(causes[k]);
            report_text(message, causes).subrange(
                before.len() as int,
                (before.len() + entry.len()) as int,
            ) == entry
        }),
{
    let numbered = causes.len() > 1;
    let before = message + header() + entries(causes.take(k), numbered);
    let entry = seq!['\n'] + prefix(k as nat, numbered) + indent(causes[k]);
    lemma_entries_prefix(causes, k + 1, numbered);
    assert(causes.take(k + 1).take(k) =~= causes.take(k));
    assert(causes.take(k + 1)[k] == causes[k]);
    assert(entries(causes.take(k + 1), numbered) =~= entries(causes.take(k), numbered) + entry);
    let full = report_text(message, causes);
    assert(full =~= message + header() + entries(causes, numbered));
    let head = message + header();
    let done = entries(causes.take(k), numbered);
    let all = entries(causes, numbered);
    let upto = entries(causes.take(k + 1), numbered);
    assert(upto.len() <= all.len() && upto =~= all.subrange(0, upto.len() as int));
    assert(before.len() == head.len() + done.len());
    assert(upto.len() == done.len() + entry.len());
    assert(full.len() == head.len() + all.len());
    assert forall|i: int| 0 <= i < entry.len() implies #[trigger] full[i + before.len()] == entry[i] by {
        assert(full[i + before.len()] == all[done.len() + i]);
        assert(all[done.len() + i] == upto[done.len() + i]);
        assert(upto[done.len() + i] == entry[i]);
    }
    assert(full.subrange(before.len() as int, (before.len() + entry.len()) as int) =~= entry);
}

} // verus!
