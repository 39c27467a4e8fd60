//! What came of a replay, and how it differs from what is on the chain.
use crate::error::LocalExecError;
use crate::types::{Object, OnChainTransactionInfo, TransactionEffects};
use std::sync::Arc;
use vstd::prelude::*;
use vstd::string::StringExecFns;

verus! {

/// Whether a line stands in both texts or in one of them.
#[derive(Clone, Copy, Debug, PartialEq, Eq)]
pub enum LineChange {
    /// The line stands in the first text only.
    Delete,
    /// The line stands in the second text only.
    Insert,
    /// The line stands in both.
    Equal,
}

/// The most characters that two texts may have together to be compared line by
/// line, so that their lines can be numbered.
pub const MAX_DIFF_CHARS: u32 = 0xffff_ffff;

/// The lines of two texts, in the order in which `similar::TextDiff::from_lines` puts
/// them, each with where it stands and with the text in which it is displayed.
pub uninterp spec fn line_diff(old_text: Seq<char>, new_text: Seq<char>) -> Seq<
    (LineChange, Seq<char>),
>;

/// Changes with the characters of their lines.
pub open spec fn changes_view(changes: Seq<(LineChange, String)>) -> Seq<(LineChange, Seq<char>)> {
    changes.map_values(|change: (LineChange, String)| (change.0, change.1@))
}

/// Whether a character ends a line.
pub open spec fn is_newline(c: char) -> bool {
    c == '\n' || c == '\r'
}

/// How long the first line of a text is, with its end: a line feed, a carriage return, or both.
pub open spec fn first_line_len(text: Seq<char>) -> nat
    decreases text.len(),
{
    if text.len() == 0 {
        0
    } else if text[0] == '\n' {
        1
    } else if text[0] == '\r' {
        if text.len() > 1 && text[1] == '\n' {
            2
        } else {
            1
        }
    } else {
        1 + first_line_len(text.skip(1))
    }
}

/// Whether a text is one line, with its end.
pub open spec fn is_line(text: Seq<char>) -> bool {
    text.len() > 0 && first_line_len(text) == text.len() && is_newline(text.last())
}

/// A text whose last line has an end.
pub open spec fn ended(text: Seq<char>) -> Seq<char> {
    if text.len() == 0 || is_newline(text.last()) {
        text
    } else {
        text.push('\n')
    }
}

/// The lines that stand in one of the two texts, one after the other: `Delete` is for the first
/// text, `Insert` for the second.
pub open spec fn side_text(changes: Seq<(LineChange, Seq<char>)>, side: LineChange) -> Seq<char>
    decreases changes.len(),
{
    if changes.len() == 0 {
        Seq::empty()
    } else {
        let before = side_text(changes.drop_last(), side);
        let (change, text) = changes.last();
        if change == side || change == LineChange::Equal {
            before + text
        } else {
            before
        }
    }
}

/// The changes that `similar::TextDiff::from_lines` and `iter_all_changes` find
/// between two texts, each with its tag and the text that its `Display` gives.
///
/// Trusted: the result is a function of the two texts, since no deadline is set for the
/// search. Each change is one line; `Display` adds a line feed where the end is missing, which
/// only the last line of a text can lack. The lines that are not inserted are those of the first
/// text in their order, and the lines that are not deleted are those of the second. Between
/// two equal texts nothing is deleted or inserted. Which of several shortest differences is
/// found is left unsaid.
#[verifier::external_body]
fn line_changes(old_text: &str, new_text: &str) -> (r: Vec<(LineChange, String)>)
    requires
        old_text@.len() + new_text@.len() <= MAX_DIFF_CHARS,
    ensures
        changes_view(r@) == line_diff(old_text@, new_text@),
        forall|i: int| 0 <= i < r@.len() ==> is_line((#[trigger] r@[i]).1@),
        side_text(changes_view(r@), LineChange::Delete) == ended(old_text@),
        side_text(changes_view(r@), LineChange::Insert) == ended(new_text@),
        old_text@ == new_text@ ==> forall|i: int|
            0 <= i < r@.len() ==> (#[trigger] r@[i]).0 == LineChange::Equal,
{
    similar::TextDiff::from_lines(old_text, new_text).iter_all_changes().map(
        |change| {
            let tag = match change.tag() {
                similar::ChangeTag::Delete => LineChange::Delete,
                similar::ChangeTag::Insert => LineChange::Insert,
                similar::ChangeTag::Equal => LineChange::Equal,
            };
            (tag, change.to_string())
        },
    ).collect()
}

/// What a line begins with in a rendered difference.
pub open spec fn sign(change: LineChange) -> Seq<char> {
    match change {
        LineChange::Delete => "---"@,
        LineChange::Insert => "+++"@,
        LineChange::Equal => "   "@,
    }
}

/// The changes one after the other, each behind its sign.
pub open spec fn rendered(changes: Seq<(LineChange, Seq<char>)>) -> Seq<char>
    decreases changes.len(),
{
    if changes.len() == 0 {
        Seq::empty()
    } else {
        rendered(changes.drop_last()) + sign(changes.last().0) + changes.last().1
    }
}

/// A text that is not empty has a first line, which is no longer than the text.
pub proof fn lemma_first_line_len(text: Seq<char>)
    ensures
        first_line_len(text) <= text.len(),
        text.len() > 0 ==> first_line_len(text) > 0,
    decreases text.len(),
{
    if text.len() > 0 {
        lemma_first_line_len(text.skip(1));
    }
}

/// The lines of a text, each with its end.
pub open spec fn lines(text: Seq<char>) -> Seq<Seq<char>>
    decreases text.len(),
{
    if text.len() == 0 {
        Seq::empty()
    } else {
        proof {
            lemma_first_line_len(text);
        }
        let n = first_line_len(text) as int;
        seq![text.take(n)] + lines(text.skip(n))
    }
}

/// Whether a line begins with a sign.
pub open spec fn is_marked(line: Seq<char>, change: LineChange) -> bool {
    line.len() >= 3 && line.take(3) == sign(change)
}

/// The lines that are marked as standing in one of two texts, without their signs and
/// one after the other.
pub open spec fn unmarked(lines: Seq<Seq<char>>, side: LineChange) -> Seq<char>
    decreases lines.len(),
{
    if lines.len() == 0 {
        Seq::empty()
    } else {
        let before = unmarked(lines.drop_last(), side);
        if is_marked(lines.last(), side) || is_marked(lines.last(), LineChange::Equal) {
            before + lines.last().skip(3)
        } else {
            before
        }
    }
}

/// Whether a text shows how two texts differ: each of its lines begins with a sign, the
/// lines behind `---` or blanks give back the first text, those behind `+++` or blanks the
/// second, each up to the end of its last line, and two equal texts have only lines
/// behind blanks.
pub open spec fn shows_difference(shown: Seq<char>, first: Seq<char>, second: Seq<char>) -> bool {
    &&& forall|i: int|
        0 <= i < lines(shown).len() ==> {
            ||| is_marked(#[trigger] lines(shown)[i], LineChange::Delete)
            ||| is_marked(lines(shown)[i], LineChange::Insert)
            ||| is_marked(lines(shown)[i], LineChange::Equal)
        }
    &&& unmarked(lines(shown), LineChange::Delete) == ended(first)
    &&& unmarked(lines(shown), LineChange::Insert) == ended(second)
    &&& first == second ==> forall|i: int|
        0 <= i < lines(shown).len() ==> is_marked(#[trigger] lines(shown)[i], LineChange::Equal)
}

/// A change with its sign, as one line.
pub open spec fn marked(change: (LineChange, Seq<char>)) -> Seq<char> {
    sign(change.0) + change.1
}

proof fn lemma_signs(change: LineChange)
    ensures
        sign(change).len() == 3,
        forall|i: int| 0 <= i < 3 ==> !is_newline(#[trigger] sign(change)[i]),
        sign(LineChange::Delete) != sign(LineChange::Insert),
        sign(LineChange::Delete) != sign(LineChange::Equal),
        sign(LineChange::Insert) != sign(LineChange::Equal),
{
    reveal_strlit("---");
    reveal_strlit("+++");
    reveal_strlit("   ");
    assert(sign(LineChange::Delete)[0] == '-');
    assert(sign(LineChange::Insert)[0] == '+');
    assert(sign(LineChange::Equal)[0] == ' ');
}

/// What begins with no end of a line leaves the line before it as it is.
proof fn lemma_line_stays(line: Seq<char>, rest: Seq<char>)
    requires
        is_line(line),
        rest.len() > 0 ==> !is_newline(rest[0]),
    ensures
        first_line_len(line + rest) == line.len(),
    decreases line.len(),
{
    let all = line + rest;
    assert(all[0] == line[0]);
    if line[0] != '\n' && line[0] != '\r' {
        lemma_first_line_len(line.skip(1));
        assert(line.len() > 1);
        assert(line.skip(1).last() == line.last());
        assert(all.skip(1) =~= line.skip(1) + rest);
        lemma_line_stays(line.skip(1), rest);
    } else if line.len() > 1 {
        assert(all[1] == line[1]);
    }
}

/// Characters that end no line belong to the line that follows them.
proof fn lemma_prefix_joins_line(prefix: Seq<char>, line: Seq<char>)
    requires
        is_line(line),
        forall|i: int| 0 <= i < prefix.len() ==> !is_newline(#[trigger] prefix[i]),
    ensures
        is_line(prefix + line),
    decreases prefix.len(),
{
    let all = prefix + line;
    if prefix.len() > 0 {
        assert(!is_newline(prefix[0]));
        assert forall|i: int| 0 <= i < prefix.skip(1).len() implies !is_newline(
            #[trigger] prefix.skip(1)[i],
        ) by {
            assert(prefix.skip(1)[i] == prefix[i + 1]);
        }
        lemma_prefix_joins_line(prefix.skip(1), line);
        assert(all.skip(1) =~= prefix.skip(1) + line);
        assert(all[0] == prefix[0]);
    } else {
        assert(all =~= line);
    }
}

proof fn lemma_rendered_from_front(changes: Seq<(LineChange, Seq<char>)>)
    requires
        changes.len() > 0,
    ensures
        rendered(changes) == marked(changes[0]) + rendered(changes.skip(1)),
    decreases changes.len(),
{
    let rest = changes.skip(1);
    if changes.len() > 1 {
        lemma_rendered_from_front(changes.drop_last());
        assert(changes.drop_last().skip(1) =~= rest.drop_last());
        assert(rest.last() == changes.last());
        assert(rendered(changes) =~= marked(changes[0]) + rendered(rest));
    } else {
        assert(changes.drop_last() =~= Seq::empty());
        assert(rest =~= Seq::empty());
        assert(rendered(changes) =~= marked(changes[0]) + rendered(rest));
    }
}

proof fn lemma_rendered_lines(changes: Seq<(LineChange, Seq<char>)>)
    requires
        forall|i: int| 0 <= i < changes.len() ==> is_line((#[trigger] changes[i]).1),
    ensures
        lines(rendered(changes)) == changes.map_values(|c: (LineChange, Seq<char>)| marked(c)),
    decreases changes.len(),
{
    let whole = changes.map_values(|c: (LineChange, Seq<char>)| marked(c));
    if changes.len() > 0 {
        let first = changes[0];
        let rest = changes.skip(1);
        assert forall|i: int| 0 <= i < rest.len() implies is_line((#[trigger] rest[i]).1) by {
            assert(rest[i] == changes[i + 1]);
        }
        lemma_rendered_lines(rest);
        lemma_rendered_from_front(changes);
        lemma_signs(first.0);
        lemma_prefix_joins_line(sign(first.0), first.1);
        let line = marked(first);
        let after = rendered(rest);
        if rest.len() > 0 {
            lemma_rendered_from_front(rest);
            lemma_signs(rest[0].0);
            assert(!is_newline(sign(rest[0].0)[0]));
            assert(after[0] == sign(rest[0].0)[0]);
        }
        lemma_line_stays(line, after);
        assert((line + after).take(line.len() as int) =~= line);
        assert((line + after).skip(line.len() as int) =~= after);
        assert(whole =~= seq![line] + rest.map_values(
            |c: (LineChange, Seq<char>)| marked(c),
        ));
    } else {
        assert(whole =~= Seq::empty());
    }
}

proof fn lemma_unmarked_lines(changes: Seq<(LineChange, Seq<char>)>, side: LineChange)
    requires
        side != LineChange::Equal,
    ensures
        unmarked(changes.map_values(|c: (LineChange, Seq<char>)| marked(c)), side) == side_text(
            changes,
            side,
        ),
    decreases changes.len(),
{
    let whole = changes.map_values(|c: (LineChange, Seq<char>)| marked(c));
    if changes.len() > 0 {
        let shorter = changes.drop_last();
        lemma_unmarked_lines(shorter, side);
        assert(whole.drop_last() =~= shorter.map_values(
            |c: (LineChange, Seq<char>)| marked(c),
        ));
        lemma_mark(changes.last());
    }
}

proof fn lemma_mark(change: (LineChange, Seq<char>))
    ensures
        forall|other: LineChange| #[trigger]
            is_marked(marked(change), other) <==> other == change.0,
        marked(change).skip(3) == change.1,
{
    lemma_signs(change.0);
    assert(marked(change).take(3) =~= sign(change.0));
    assert(marked(change).skip(3) =~= change.1);
    assert forall|other: LineChange| #[trigger]
        is_marked(marked(change), other) <==> other == change.0 by {
        lemma_signs(other);
    }
}

/// Rendered changes show how two texts differ, if each change is one line and the changes
/// hold the lines of both texts.
pub proof fn law_rendered_changes_show_difference(
    changes: Seq<(LineChange, Seq<char>)>,
    first: Seq<char>,
    second: Seq<char>,
)
    requires
        forall|i: int| 0 <= i < changes.len() ==> is_line((#[trigger] changes[i]).1),
        side_text(changes, LineChange::Delete) == ended(first),
        side_text(changes, LineChange::Insert) == ended(second),
        first == second ==> forall|i: int|
            0 <= i < changes.len() ==> (#[trigger] changes[i]).0 == LineChange::Equal,
    ensures
        shows_difference(rendered(changes), first, second),
{
    lemma_rendered_lines(changes);
    lemma_unmarked_lines(changes, LineChange::Delete);
    lemma_unmarked_lines(changes, LineChange::Insert);
    let shown = lines(rendered(changes));
    assert forall|i: int| 0 <= i < shown.len() implies is_marked(
        #[trigger] shown[i],
        changes[i].0,
    ) by {
        lemma_mark(changes[i]);
    }
}

/// The changes one after the other, each behind its sign.
pub fn render_changes(changes: &Vec<(LineChange, String)>) -> (r: String)
    ensures
        r@ == rendered(changes_view(changes@)),
{
    let ghost all = changes_view(changes@);
    let mut out: String = String::new();
    assert(out@ =~= Seq::<char>::empty());
    let mut i: usize = 0;
    while i < changes.len()
        invariant
            i <= changes.len(),
            all == changes_view(changes@),
            out@ == rendered(all.take(i as int)),
        decreases changes.len() - i,
    {
        assert(all.take(i + 1).drop_last() =~= all.take(i as int));
        match changes[i].0 {
            LineChange::Delete => out.append("---"),
            LineChange::Insert => out.append("+++"),
            LineChange::Equal => out.append("   "),
        }
        out.append(changes[i].1.as_str());
        i += 1;
    }
    assert(all.take(i as int) =~= all);
    out
}

/// What came of the replay of one transaction. `S` is the temporary store that the
/// execution engine leaves behind, and `E` its error.
#[derive(Debug)]
pub struct ExecutionSandboxState<S, E> {
    /// Information describing the transaction
    pub transaction_info: Arc<OnChainTransactionInfo>,
    /// All the objects that are required for the execution of the transaction
    pub required_objects: Vec<Object>,
    /// Temporary store from executing this locally
    pub local_exec_temporary_store: Option<S>,
    /// Effects from executing this locally
    pub local_exec_effects: Arc<TransactionEffects>,
    /// Status from executing this locally
    pub local_exec_status: Result<(), E>,
}

/// Whether two lists of bytes are the same.
pub fn same_bytes(a: &Vec<u8>, b: &Vec<u8>) -> (r: bool)
    ensures
        r == (a@ == b@),
{
    if a.len() != b.len() {
        return false;
    }
    let mut i: usize = 0;
    while i < a.len()
        invariant
            i <= a.len() == b.len(),
            a@.take(i as int) == b@.take(i as int),
        decreases a.len() - i,
    {
        if a[i] != b[i] {
            return false;
        }
        assert(a@.take(i + 1) =~= a@.take(i as int).push(a@[i as int]));
        assert(b@.take(i + 1) =~= b@.take(i as int).push(b@[i as int]));
        i += 1;
    }
    assert(a@.take(i as int) =~= a@);
    assert(b@.take(i as int) =~= b@);
    true
}

impl<S, E> ExecutionSandboxState<S, E> {
    /// The replay came to the outcome that is on the chain.
    pub open spec fn agrees(&self) -> bool {
        self.transaction_info.effects.encoded@ == self.local_exec_effects.encoded@
    }

    /// The two outcomes can be compared line by line.
    pub open spec fn is_diffable(&self) -> bool {
        self.transaction_info.effects.rendered@.len() + self.local_exec_effects.rendered@.len()
            <= MAX_DIFF_CHARS
    }

    /// The outcome on the chain and that of the replay, line by line.
    pub open spec fn difference(&self) -> Seq<char> {
        rendered(
            line_diff(
                self.transaction_info.effects.rendered@,
                self.local_exec_effects.rendered@,
            ),
        )
    }

    /// Whether the two outcomes can be compared line by line.
    pub fn can_diff(&self) -> (r: bool)
        ensures
            r == self.is_diffable(),
    {
        let on_chain: usize = self.transaction_info.effects.rendered.as_str().unicode_len();
        let local: usize = self.local_exec_effects.rendered.as_str().unicode_len();
        on_chain <= MAX_DIFF_CHARS as usize && local <= MAX_DIFF_CHARS as usize - on_chain
    }

    /// Whether `check_effects` can tell what it has to: two outcomes that differ can be compared
    /// line by line.
    pub fn can_check_effects(&self) -> (r: bool)
        ensures
            r == (!self.agrees() ==> self.is_diffable()),
    {
        same_bytes(
            &self.transaction_info.effects.encoded,
            &self.local_exec_effects.encoded,
        ) || self.can_diff()
    }

    /// Fails if the replay came to another outcome than the one on the chain. The
    /// error holds both outcomes and how they differ.
    pub fn check_effects(&self) -> (r: Result<(), LocalExecError>)
        requires
            !self.agrees() ==> self.is_diffable(),
        ensures
            if self.agrees() {
                r == Ok::<(), LocalExecError>(())
            } else {
                &&& r matches Err(LocalExecError::EffectsForked { digest, diff, on_chain, local })
                &&& digest == self.transaction_info.tx_digest
                &&& diff@ == "\n"@ + self.difference()
                &&& shows_difference(self.difference(), on_chain.rendered@, local.rendered@)
                &&& on_chain == self.transaction_info.effects
                &&& local == self.local_exec_effects
            },
    {
        if same_bytes(
            &self.transaction_info.effects.encoded,
            &self.local_exec_effects.encoded,
        ) {
            return Ok(());
        }
        let mut diff: String = "\n".to_owned();
        diff.append(self.diff_effects().as_str());
        Err(
            LocalExecError::EffectsForked {
                digest: self.transaction_info.tx_digest,
                diff,
                on_chain: self.transaction_info.effects.clone(),
                local: self.local_exec_effects.clone(),
            },
        )
    }

    /// The outcome on the chain and that of the replay, line by line: a line behind
    /// `---` is on the chain only, one behind `+++` in the replay only.
    pub fn diff_effects(&self) -> (r: String)
        requires
            self.is_diffable(),
        ensures
            r@ == self.difference(),
            shows_difference(
                r@,
                self.transaction_info.effects.rendered@,
                self.local_exec_effects.rendered@,
            ),
    {
        let changes = line_changes(
            self.transaction_info.effects.rendered.as_str(),
            self.local_exec_effects.rendered.as_str(),
        );
        proof {
            let view = changes_view(changes@);
            assert forall|i: int| 0 <= i < view.len() implies is_line((#[trigger] view[i]).1) by {
                assert(is_line(changes@[i].1@));
            }
            law_rendered_changes_show_difference(
                view,
                self.transaction_info.effects.rendered@,
                self.local_exec_effects.rendered@,
            );
        }
        render_changes(&changes)
    }
}

/// The comparison with the chain passes exactly if the encodings of both outcomes are the same.
/// Else the error names the transaction, holds both outcomes as they are, and shows how they
/// differ, on a new line.
pub proof fn law_a_fork_is_told_by_the_encodings<S, E>(
    state: &ExecutionSandboxState<S, E>,
    difference: String,
    r: Result<(), LocalExecError>,
)
    requires
        state.is_diffable(),
        call_ensures(ExecutionSandboxState::<S, E>::diff_effects, (state,), difference),
        call_ensures(ExecutionSandboxState::<S, E>::check_effects, (state,), r),
    ensures
        r is Ok <==> state.transaction_info.effects.encoded@ == state.local_exec_effects.encoded@,
        r matches Err(err) ==> {
            &&& err matches LocalExecError::EffectsForked { digest, diff, on_chain, local }
            &&& digest == state.transaction_info.tx_digest
            &&& diff@ == seq!['\n'] + difference@
            &&& on_chain == state.transaction_info.effects
            &&& local == state.local_exec_effects
        },
{
    reveal_strlit("\n");
    assert("\n"@ =~= seq!['\n']);
}

/// Outcomes with the same encoding pass, however long they are.
pub proof fn law_the_same_outcome_passes<S, E>(
    state: &ExecutionSandboxState<S, E>,
    r: Result<(), LocalExecError>,
)
    requires
        state.transaction_info.effects.encoded@ == state.local_exec_effects.encoded@,
        call_ensures(ExecutionSandboxState::<S, E>::check_effects, (state,), r),
    ensures
        r is Ok,
{
}

proof fn lemma_lines_make_the_text(text: Seq<char>)
    ensures
        lines(text).flatten() == text,
    decreases text.len(),
{
    if text.len() > 0 {
        lemma_first_line_len(text);
        let n = first_line_len(text) as int;
        lemma_lines_make_the_text(text.skip(n));
        let all = lines(text);
        assert(all.first() == text.take(n));
        assert(all.drop_first() =~= lines(text.skip(n)));
        assert(text.take(n) + text.skip(n) =~= text);
    }
}

/// Whether a line begins with `---`, `+++` or three blanks.
pub open spec fn begins_with(line: Seq<char>, sign: Seq<char>) -> bool {
    line.len() >= 3 && line.take(3) == sign
}

proof fn lemma_unmarked_is_filtered(all: Seq<Seq<char>>, side: LineChange)
    ensures
        unmarked(all, side) == all.filter(
            |line: Seq<char>| begins_with(line, sign(side)) || begins_with(line, "   "@),
        ).map_values(|line: Seq<char>| line.skip(3)).flatten_alt(),
    decreases all.len(),
{
    reveal(Seq::filter);
    let keep = |line: Seq<char>| begins_with(line, sign(side)) || begins_with(line, "   "@);
    let kept = all.filter(keep).map_values(|line: Seq<char>| line.skip(3));
    if all.len() == 0 {
        assert(kept.flatten_alt() =~= Seq::empty());
    } else {
        let shorter = all.drop_last();
        lemma_unmarked_is_filtered(shorter, side);
        let before = shorter.filter(keep).map_values(|line: Seq<char>| line.skip(3));
        if keep(all.last()) {
            assert(kept.drop_last() =~= before);
            assert(kept.last() == all.last().skip(3));
        } else {
            assert(kept =~= before);
        }
    }
}

/// The difference is made of lines that begin with `---`, `+++` or three blanks. Without these,
/// those behind `---` and blanks are the outcome on the chain, and those behind `+++` and blanks
/// are the outcome of the replay, each with its last line ended. If both are the same, all lines
/// are behind blanks.
pub proof fn law_the_difference_gives_both_texts_back<S, E>(
    state: &ExecutionSandboxState<S, E>,
    r: String,
) -> (all: Seq<Seq<char>>)
    requires
        state.is_diffable(),
        call_ensures(ExecutionSandboxState::<S, E>::diff_effects, (state,), r),
    ensures
        all.flatten() == r@,
        forall|k: int|
            0 <= k < all.len() ==> begins_with(#[trigger] all[k], "---"@) || begins_with(
                all[k],
                "+++"@,
            ) || begins_with(all[k], "   "@),
        ({
            let on_chain = state.transaction_info.effects.rendered@;
            let local = state.local_exec_effects.rendered@;
            &&& all.filter(
                |line: Seq<char>| begins_with(line, "---"@) || begins_with(line, "   "@),
            ).map_values(|line: Seq<char>| line.skip(3)).flatten_alt() == (if on_chain.len() == 0
                || on_chain.last() == '\n' || on_chain.last() == '\r' {
                on_chain
            } else {
                on_chain.push('\n')
            })
            &&& all.filter(
                |line: Seq<char>| begins_with(line, "+++"@) || begins_with(line, "   "@),
            ).map_values(|line: Seq<char>| line.skip(3)).flatten_alt() == (if local.len() == 0
                || local.last() == '\n' || local.last() == '\r' {
                local
            } else {
                local.push('\n')
            })
            &&& on_chain == local ==> forall|k: int|
                0 <= k < all.len() ==> begins_with(#[trigger] all[k], "   "@)
        }),
{
    let all = lines(r@);
    lemma_lines_make_the_text(r@);
    lemma_unmarked_is_filtered(all, LineChange::Delete);
    lemma_unmarked_is_filtered(all, LineChange::Insert);
    assert forall|k: int| 0 <= k < all.len() implies begins_with(#[trigger] all[k], "---"@)
        || begins_with(all[k], "+++"@) || begins_with(all[k], "   "@) by {
        assert(all[k] == lines(r@)[k]);
    }
    if state.transaction_info.effects.rendered@ == state.local_exec_effects.rendered@ {
        assert forall|k: int| 0 <= k < all.len() implies begins_with(
            #[trigger] all[k],
            "   "@,
        ) by {
            assert(is_marked(lines(r@)[k], LineChange::Equal));
        }
    }
    all
}

/// Changes that are shown come one after the other, each behind its sign.
pub proof fn law_changes_are_shown_in_order(
    changes: &Vec<(LineChange, String)>,
    r: String,
    shown: Seq<Seq<char>>,
)
    requires
        call_ensures(render_changes, (changes,), r),
        shown.len() == changes@.len(),
        forall|k: int|
            0 <= k < shown.len() ==> #[trigger] shown[k] == match changes@[k].0 {
                LineChange::Delete => "---"@,
                LineChange::Insert => "+++"@,
                LineChange::Equal => "   "@,
            } + changes@[k].1@,
    ensures
        r@ == shown.flatten_alt(),
{
    let view = changes_view(changes@);
    assert forall|k: int| 0 <= k < shown.len() implies #[trigger] shown[k] == marked(view[k]) by {}
    lemma_rendered_is_joined(view, shown);
}

proof fn lemma_rendered_is_joined(
    changes: Seq<(LineChange, Seq<char>)>,
    shown: Seq<Seq<char>>,
)
    requires
        shown.len() == changes.len(),
        forall|k: int| 0 <= k < shown.len() ==> #[trigger] shown[k] == marked(changes[k]),
    ensures
        rendered(changes) == shown.flatten_alt(),
    decreases changes.len(),
{
    if changes.len() > 0 {
        let shorter = shown.drop_last();
        assert forall|k: int| 0 <= k < shorter.len() implies #[trigger] shorter[k] == marked(
            changes.drop_last()[k],
        ) by {
            assert(shorter[k] == shown[k]);
        }
        lemma_rendered_is_joined(changes.drop_last(), shorter);
        assert(shown[shown.len() - 1] == marked(changes[changes.len() - 1]));
        assert(rendered(changes) =~= shorter.flatten_alt() + marked(changes.last()));
    }
}

/// Two outcomes can be compared line by line if together they have no more characters than 32 bits
/// can count, and the comparison with the chain can be made if they can be or need not be.
pub proof fn law_long_outcomes_cannot_be_compared<S, E>(
    state: &ExecutionSandboxState<S, E>,
    diff: bool,
    check: bool,
)
    requires
        call_ensures(ExecutionSandboxState::<S, E>::can_diff, (state,), diff),
        call_ensures(ExecutionSandboxState::<S, E>::can_check_effects, (state,), check),
    ensures
        diff <==> state.transaction_info.effects.rendered@.len()
            + state.local_exec_effects.rendered@.len() <= 0xffff_ffff,
        check <==> diff || state.transaction_info.effects.encoded@
            == state.local_exec_effects.encoded@,
{
}

/// Bytes are the same just if there are equally many and they agree at each place.
pub proof fn law_same_bytes_are_told(a: &Vec<u8>, b: &Vec<u8>, r: bool)
    requires
        call_ensures(same_bytes, (a, b), r),
    ensures
        r <==> a@.len() == b@.len() && forall|i: int|
            0 <= i < a@.len() ==> #[trigger] a@[i] == b@[i],
{
    if a@.len() == b@.len() && forall|i: int| 0 <= i < a@.len() ==> #[trigger] a@[i] == b@[i] {
        assert(a@ =~= b@);
    }
}

} // verus!
