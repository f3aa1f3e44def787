//! Proved laws of the stripper, stated over the scanner model.

use vstd::prelude::*;

verus! {

use crate::scanner::{Mode, ScanState, is_space, scan, step, stripped};

/// On input with no `<` the scanner never leaves plain text and copies
/// every character to the output.
proof fn lemma_scan_plain(s: Seq<char>)
    requires
        forall|i: int| 0 <= i < s.len() ==> s[i] != '<',
    ensures
        scan(s) == (ScanState {
            mode: Mode::PlainText,
            buffer: Seq::<char>::empty(),
            depth: 0,
            quote: None,
            output: s,
        }),
    decreases s.len(),
{
    if s.len() == 0 {
        assert(s =~= Seq::<char>::empty());
    } else {
        lemma_scan_plain(s.drop_last());
        assert(s.drop_last().push(s.last()) =~= s);
    }
}

/// Stripping is the identity on text that contains no `<` at all.
pub proof fn lemma_plain_text_identity(s: Seq<char>)
    requires
        forall|i: int| 0 <= i < s.len() ==> s[i] != '<',
    ensures
        stripped(s) == s,
{
    lemma_scan_plain(s);
}

/// Every `<` in `t` that has a following character is followed by a space.
pub open spec fn angles_spaced_within(t: Seq<char>) -> bool {
    forall|i: int| 0 <= i && i + 1 < t.len() && #[trigger] t[i] == '<' ==> t[i + 1] == ' '
}

/// Every `<` in `t` is immediately followed by a space (so none is last).
pub open spec fn angles_spaced(t: Seq<char>) -> bool {
    angles_spaced_within(t) && (t.len() > 0 ==> t.last() != '<')
}

proof fn lemma_spaced_push(t: Seq<char>, c: char)
    requires
        angles_spaced(t),
        c != '<',
    ensures
        angles_spaced(t.push(c)),
{
    let u = t.push(c);
    assert forall|i: int| 0 <= i && i + 1 < u.len() && #[trigger] u[i] == '<' implies u[i + 1]
        == ' ' by {
        if i + 1 < t.len() {
            assert(t[i] == '<');
        } else {
            // u[i] is t's last character, which is not `<`.
            assert(u[i] == t.last());
        }
    }
}

proof fn lemma_spaced_restore(t: Seq<char>)
    requires
        angles_spaced(t),
    ensures
        angles_spaced(t + seq!['<', ' ']),
{
    let u = t + seq!['<', ' '];
    assert forall|i: int| 0 <= i && i + 1 < u.len() && #[trigger] u[i] == '<' implies u[i + 1]
        == ' ' by {
        if i + 1 < t.len() {
            assert(t[i] == '<');
        } else if i < t.len() {
            assert(u[i] == t.last());
        }
    }
    assert(u.last() == ' ');
}

/// One step keeps the output's `<` characters paired with spaces: a step
/// appends nothing, a single non-`<` character, or the restored pair `< `.
proof fn lemma_step_spaced(st: ScanState, c: char)
    requires
        angles_spaced(st.output),
    ensures
        angles_spaced(step(st, c).output),
{
    match st.mode {
        Mode::PlainText => {
            if c != '<' {
                lemma_spaced_push(st.output, c);
            }
        },
        Mode::InTag => {
            if is_space(c) && st.buffer == seq!['<'] {
                lemma_spaced_restore(st.output);
            }
        },
        Mode::InComment => {},
    }
}

/// The stripper's own output always has every `<` followed by a space,
/// because the restoration of a bare `<` is the only way a `<` is emitted.
pub proof fn lemma_output_angles_spaced(s: Seq<char>)
    ensures
        angles_spaced(stripped(s)),
    decreases s.len(),
{
    if s.len() > 0 {
        lemma_output_angles_spaced(s.drop_last());
        lemma_step_spaced(scan(s.drop_last()), s.last());
    }
}

/// Scanning text in which every `<` (with a successor) is followed by a
/// space stays in plain text and copies it, except that a trailing `<` is
/// still provisionally buffered when the scan ends.
proof fn lemma_scan_spaced(t: Seq<char>)
    requires
        angles_spaced_within(t),
    ensures
        (if t.len() > 0 && t.last() == '<' {
            scan(t) == (ScanState {
                mode: Mode::InTag,
                buffer: seq!['<'],
                depth: 0,
                quote: None,
                output: t.drop_last(),
            })
        } else {
            scan(t) == (ScanState {
                mode: Mode::PlainText,
                buffer: Seq::<char>::empty(),
                depth: 0,
                quote: None,
                output: t,
            })
        }),
    decreases t.len(),
{
    if t.len() == 0 {
        assert(t =~= Seq::<char>::empty());
    } else {
        let p = t.drop_last();
        let c = t.last();
        assert(angles_spaced_within(p)) by {
            assert forall|i: int| 0 <= i && i + 1 < p.len() && #[trigger] p[i] == '<' implies p[i
                + 1] == ' ' by {
                assert(t[i] == '<');
            }
        }
        lemma_scan_spaced(p);
        if p.len() > 0 && p.last() == '<' {
            // The `<` at the end of `p` has `c` after it, so `c` is a space
            // and the scanner restores the pair `< `.
            assert(t[p.len() - 1] == '<');
            assert(c == ' ');
            assert(p.drop_last() + seq!['<', ' '] =~= t);
        } else {
            if c != '<' {
                assert(p.push(c) =~= t);
            }
        }
    }
}

/// Stripping is the identity on any text in which every `<` is immediately
/// followed by a space — in particular on the stripper's own output.
pub proof fn lemma_spaced_identity(t: Seq<char>)
    requires
        angles_spaced(t),
    ensures
        stripped(t) == t,
{
    lemma_scan_spaced(t);
}

/// Stripping an already-stripped text changes nothing: the output contains
/// no markup the scanner would elide, so a second pass is the identity.
pub proof fn lemma_strip_idempotent(s: Seq<char>)
    ensures
        stripped(stripped(s)) == stripped(s),
{
    lemma_output_angles_spaced(s);
    lemma_spaced_identity(stripped(s));
}

/// While the scanner is inside a comment no character reaches the output:
/// everything between `<!--` and its closing `-->` is elided.
pub proof fn lemma_comment_emits_nothing(st: ScanState, c: char)
    requires
        st.mode is InComment,
    ensures
        step(st, c).output == st.output,
{
}

/// Inside a tag the only characters that ever reach the output are the two
/// literal characters `< ` restored when a bare `<` turns out to be
/// followed by whitespace; the tag's own content is never emitted.
pub proof fn lemma_tag_emits_at_most_restoration(st: ScanState, c: char)
    requires
        st.mode is InTag,
    ensures
        step(st, c).output == st.output || (is_space(c) && st.buffer == seq!['<'] && step(st,
            c).output == st.output + seq!['<', ' ']),
{
}

/// In plain text each character other than `<` is emitted verbatim, and a
/// `<` is withheld as a provisional tag opener.
pub proof fn lemma_plain_text_step(st: ScanState, c: char)
    requires
        st.mode is PlainText,
    ensures
        c == '<' ==> step(st, c).output == st.output,
        c != '<' ==> step(st, c).output == st.output.push(c),
{
}

/// The nesting depth moves only while the scanner is inside a tag with no
/// quote open, and then by exactly one; a `>` at depth zero closes the tag
/// rather than pushing the depth below zero.
pub proof fn lemma_depth_moves_only_in_unquoted_tag(st: ScanState, c: char)
    ensures
        step(st, c).depth != st.depth ==> st.mode is InTag && st.quote is None,
        step(st, c).depth == st.depth || step(st, c).depth == st.depth + 1 || step(st, c).depth
            + 1 == st.depth,
{
}

/// The output is append-only: scanning more of the input only ever adds
/// characters after what the shorter prefix had already produced, so the
/// retained characters keep their input order.
pub proof fn lemma_output_append_only(s: Seq<char>, i: int, j: int)
    requires
        0 <= i <= j <= s.len(),
    ensures
        scan(s.take(i)).output.is_prefix_of(scan(s.take(j)).output),
    decreases j - i,
{
    if i == j {
        assert(scan(s.take(i)).output.is_prefix_of(scan(s.take(j)).output));
    } else {
        lemma_output_append_only(s, i, j - 1);
        crate::scanner::lemma_scan_snoc(s, j - 1);
        let st = scan(s.take(j - 1));
        let ext = step(st, s[j - 1]);
        match st.mode {
            Mode::PlainText => {
                lemma_plain_text_step(st, s[j - 1]);
            },
            Mode::InTag => {
                lemma_tag_emits_at_most_restoration(st, s[j - 1]);
            },
            Mode::InComment => {
                lemma_comment_emits_nothing(st, s[j - 1]);
            },
        }
        assert(st.output.is_prefix_of(ext.output)) by {
            if ext.output == st.output.push(s[j - 1]) {
                assert(st.output =~= ext.output.subrange(0, st.output.len() as int));
            } else if ext.output == st.output + seq!['<', ' '] {
                assert(st.output =~= ext.output.subrange(0, st.output.len() as int));
            }
        }
        assert(scan(s.take(i)).output =~= ext.output.subrange(
            0,
            scan(s.take(i)).output.len() as int,
        ));
    }
}

} // verus!
