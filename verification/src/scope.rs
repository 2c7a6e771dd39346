//! Layout scopes in a sequence of commands: every scope that is opened is
//! closed again, innermost first.
use vstd::prelude::*;
use crate::events::{EventView, SourceSpan, TagView};
use crate::viewer::{commands_view, newline_end, newline_start, CommandView, OptionsView, RenderCommand, Scope, ViewerState};

verus! {

/// The scopes left open after one more command, or `None` once a scope was
/// closed that was not the innermost open one.
pub open spec fn apply_scope(open: Option<Seq<Scope>>, c: CommandView) -> Option<Seq<Scope>> {
    match open {
        None => None,
        Some(st) => match c {
            CommandView::Open(k) => Some(st.push(k)),
            CommandView::Close(k) => if st.len() > 0 && st.last() == k {
                Some(st.drop_last())
            } else {
                None
            },
            _ => Some(st),
        },
    }
}

/// The scopes left open after a sequence of commands, or `None` when a
/// scope was closed out of order.
pub open spec fn scope_run(c: Seq<CommandView>) -> Option<Seq<Scope>>
    decreases c.len(),
{
    if c.len() == 0 {
        Some(Seq::empty())
    } else {
        apply_scope(scope_run(c.drop_last()), c.last())
    }
}

/// Every scope opened in `c` is closed again, innermost first.
pub open spec fn well_nested(c: Seq<CommandView>) -> bool {
    scope_run(c) == Some(Seq::<Scope>::empty())
}

/// No command of `c` opens or closes a scope.
pub open spec fn no_scopes(c: Seq<CommandView>) -> bool {
    forall|i: int| 0 <= i < c.len() ==> !(#[trigger] c[i] is Open) && !(c[i] is Close)
}

/// Commands that open and close no scope leave the open scopes as they were.
pub proof fn lemma_append_leaves(a: Seq<CommandView>, b: Seq<CommandView>)
    requires
        no_scopes(b),
    ensures
        scope_run(a + b) == scope_run(a),
    decreases b.len(),
{
    if b.len() > 0 {
        let b2 = b.drop_last();
        assert forall|i: int| 0 <= i < b2.len() implies !(#[trigger] b2[i] is Open) && !(
        b2[i] is Close) by {
            assert(b2[i] == b[i]);
        }
        lemma_append_leaves(a, b2);
        assert((a + b).drop_last() =~= a + b2);
        assert((a + b).last() == b[b.len() - 1]);
    } else {
        assert(a + b =~= a);
    }
}

/// One more command changes the open scopes as `apply_scope` says.
pub proof fn lemma_push(a: Seq<CommandView>, x: CommandView)
    ensures
        scope_run(a.push(x)) == apply_scope(scope_run(a), x),
{
    assert(a.push(x).drop_last() =~= a);
}

/// Appends a command and says what the sequence of commands became.
pub fn push_command(out: &mut Vec<RenderCommand>, c: RenderCommand)
    ensures
        commands_view(final(out)@) == commands_view(old(out)@).push(c@),
        scope_run(commands_view(final(out)@)) == apply_scope(scope_run(commands_view(old(out)@)), c@),
{
    let ghost cv = c@;
    out.push(c);
    assert(commands_view(out@) =~= commands_view(old(out)@).push(cv));
    proof {
        lemma_push(commands_view(old(out)@), cv);
    }
}

/// Opening a scope, then commands that leave the scopes as they found them,
/// then closing the same scope, leaves the open scopes as they were.
pub proof fn lemma_open_close(a: Seq<CommandView>, mid: Seq<CommandView>, k: Scope)
    requires
        scope_run(mid) == scope_run(a.push(CommandView::Open(k))),
    ensures
        scope_run(mid.push(CommandView::Close(k))) == scope_run(a),
{
    lemma_push(a, CommandView::Open(k));
    lemma_push(mid, CommandView::Close(k));
    if let Some(st) = scope_run(a) {
        assert(st.push(k).drop_last() =~= st);
    }
}

/// A newline, or none, opens and closes no scope.
proof fn lemma_newlines_no_scopes(s: ViewerState)
    ensures
        no_scopes(newline_start(s.line)),
        no_scopes(newline_end(s.line)),
{
}

/// What a start tag asks to be drawn opens and closes no scope.
pub proof fn lemma_start_tag_no_scopes(s: ViewerState, tag: TagView, u: bool, d: Seq<char>)
    ensures
        no_scopes(s.start_tag(tag, u, d).1),
{
    lemma_newlines_no_scopes(s);
    let c = s.start_tag(tag, u, d).1;
    match tag {
        TagView::FootnoteDefinition(note) => {
            let n = newline_start(s.line);
            assert forall|i: int| 0 <= i < c.len() implies !(#[trigger] c[i] is Open) && !(
            c[i] is Close) by {
                if i < n.len() {
                    assert(c[i] == n[i]);
                }
            }
        },
        _ => {},
    }
}

/// What one event asks to be drawn opens and closes no scope.
pub proof fn lemma_event_no_scopes(s: ViewerState, e: EventView, span: SourceSpan, o: OptionsView)
    ensures
        no_scopes(s.event(e, span, o).1),
{
    reveal(ViewerState::event);
    lemma_newlines_no_scopes(s);
    let c = s.event(e, span, o).1;
    match e {
        EventView::Start(tag) => lemma_start_tag_no_scopes(
            s,
            tag,
            o.use_explicit_uri_scheme,
            o.default_implicit_uri_scheme,
        ),
        EventView::End(tag) => {
            match tag {
                crate::events::MdTagEnd::CodeBlock => {
                    if let Some(b) = s.code_block {
                        let n = newline_end(s.line);
                        assert forall|i: int| 0 <= i < c.len() implies !(#[trigger] c[i] is Open)
                            && !(c[i] is Close) by {
                            if i > 0 {
                                assert(c[i] == n[i - 1]);
                            }
                        }
                    }
                },
                _ => {},
            }
        },
        EventView::Rule => {
            let n = newline_start(s.line);
            assert forall|i: int| 0 <= i < c.len() implies !(#[trigger] c[i] is Open) && !(
            c[i] is Close) by {
                if i < n.len() {
                    assert(c[i] == n[i]);
                }
            }
        },
        _ => {},
    }
}

/// No event changes how many tables have been drawn.
pub proof fn lemma_event_keeps_table_count(s: ViewerState, e: EventView, span: SourceSpan, o: OptionsView)
    ensures
        s.event(e, span, o).0.curr_table == s.curr_table,
{
    reveal(ViewerState::event);
    match e {
        EventView::Start(tag) => {
            match tag {
                TagView::DefinitionListTitle => {},
                _ => {},
            }
        },
        EventView::End(tag) => {},
        EventView::Code(t) => {},
        _ => {},
    }
}

} // verus!
