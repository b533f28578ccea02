use vstd::prelude::*;

verus! {

/// `s` with every space replaced by an underscore; every other character is kept.
pub open spec fn underscored(s: Seq<char>) -> Seq<char> {
    s.map_values(|c: char| if c == ' ' { '_' } else { c })
}

/// What closes a link to `target`: `](`, the resolved target, `)`.
pub open spec fn link_close(target: Seq<char>) -> Seq<char> {
    seq![']', '('] + underscored(target) + seq![')']
}

/// A whole link whose display text is written verbatim.
pub open spec fn link_text(text: Seq<char>, target: Seq<char>) -> Seq<char> {
    seq!['['] + text + link_close(target)
}

/// Relies on `str::replace`: every match of the pattern `" "` is replaced by `"_"`.
#[verifier::external_body]
fn replace_spaces(s: &str) -> (r: String)
    ensures
        r@ == underscored(s@),
{
    s.replace(" ", "_")
}

/// The reference a link target is written as: spaces become underscores.
pub fn resolve_link(link: &str) -> (r: String)
    ensures
        r@ == underscored(link@),
{
    replace_spaces(link)
}

/// Writes the end of a link: `](`, the resolved target and `)`.
pub fn write_link_close(sink: &mut String, target: &str)
    ensures
        final(sink)@ == old(sink)@ + link_close(target@),
{
    let resolved = resolve_link(target);
    proof {
        reveal_strlit("](");
        reveal_strlit(")");
    }
    sink.append("](");
    sink.append(resolved.as_str());
    sink.append(")");
}

/// Writes `[text](target)` with `text` verbatim and the target resolved.
pub fn write_link(sink: &mut String, text: &str, target: &str)
    ensures
        final(sink)@ == old(sink)@ + link_text(text@, target@),
{
    proof {
        reveal_strlit("[");
    }
    sink.append("[");
    sink.append(text);
    write_link_close(sink, target);
    assert(final(sink)@ =~= old(sink)@ + link_text(text@, target@));
}

} // verus!
