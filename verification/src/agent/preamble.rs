//! Recalled memory as a part of the system prompt.

use vstd::prelude::*;
use crate::text;

verus! {

/// The lines that hold more than white space.
pub open spec fn kept(lines: Seq<Seq<char>>) -> Seq<Seq<char>>
    decreases lines.len(),
{
    if lines.len() == 0 {
        Seq::empty()
    } else if text::trimmed(lines.last()).len() == 0 {
        kept(lines.drop_last())
    } else {
        kept(lines.drop_last()).push(lines.last())
    }
}

/// The lines as bullets.
pub open spec fn bulleted(lines: Seq<Seq<char>>) -> Seq<Seq<char>> {
    Seq::new(lines.len(), |i: int| "- "@ + lines[i])
}

/// The addendum that recalled lines make, if they hold anything.
pub open spec fn preamble(lines: Seq<Seq<char>>) -> Option<Seq<char>> {
    if kept(lines).len() == 0 {
        None
    } else {
        Some(
            "# Relevant memory (on-device; from prior sessions)\n"@ + text::joined(
                bulleted(kept(lines)),
                "\n"@,
            ),
        )
    }
}

/// The addendum to the system prompt that recalled lines make, if they hold
/// anything.
pub fn memory_preamble(lines: &[String]) -> (result: Option<String>)
    ensures
        text::opt_view(result) == preamble(text::views(lines@)),
{
    let ghost all = text::views(lines@);
    let mut bullets: Vec<String> = Vec::new();
    let mut i: usize = 0;
    assert(all.take(0) =~= Seq::<Seq<char>>::empty());
    assert(text::views(bullets@) =~= bulleted(kept(all.take(0))));
    while i < lines.len()
        invariant
            i <= lines.len(),
            all == text::views(lines@),
            text::views(bullets@) == bulleted(kept(all.take(i as int))),
        decreases lines.len() - i,
    {
        assert(all.take(i + 1).drop_last() =~= all.take(i as int));
        let core = text::trim(lines[i].as_str());
        if !core.as_str().is_empty() {
            let bullet = "- ".to_string().concat(lines[i].as_str());
            let ghost before = kept(all.take(i as int));
            proof {
                text::lemma_views_push(bullets@, bullet);
                assert(bulleted(before.push(all[i as int])) =~= bulleted(before).push(bullet@));
            }
            bullets.push(bullet);
        }
        i += 1;
    }
    assert(all.take(i as int) =~= all);
    assert(bullets@.len() == text::views(bullets@).len());
    if bullets.len() == 0 {
        return None;
    }
    let mut result = "# Relevant memory (on-device; from prior sessions)\n".to_string();
    result.append(text::join(&bullets, "\n").as_str());
    Some(result)
}

/// There is an addendum exactly if some line holds more than white space.
pub proof fn lemma_preamble_present(lines: Seq<Seq<char>>)
    ensures
        preamble(lines) is Some <==> exists|i: int|
            0 <= i < lines.len() && text::trimmed(#[trigger] lines[i]).len() > 0,
    decreases lines.len(),
{
    if lines.len() > 0 {
        let rest = lines.drop_last();
        lemma_preamble_present(rest);
        assert(lines.last() == lines[lines.len() - 1]);
        if exists|i: int| 0 <= i < rest.len() && text::trimmed(#[trigger] rest[i]).len() > 0 {
            let i = choose|i: int| 0 <= i < rest.len() && text::trimmed(#[trigger] rest[i]).len()
                > 0;
            assert(text::trimmed(lines[i]).len() > 0);
        }
        if exists|i: int| 0 <= i < lines.len() && text::trimmed(#[trigger] lines[i]).len() > 0 {
            let i = choose|i: int|
                0 <= i < lines.len() && text::trimmed(#[trigger] lines[i]).len() > 0;
            if i < rest.len() {
                assert(text::trimmed(rest[i]).len() > 0);
            }
        }
    }
}

/// Each line that holds something is one bullet more behind those before it, under one
/// heading, and a line of white space adds nothing.
pub proof fn lemma_bullets(lines: Seq<Seq<char>>, line: Seq<char>)
    ensures
        preamble(Seq::empty()) is None,
        text::trimmed(line).len() == 0 ==> preamble(lines.push(line)) == preamble(lines),
        text::trimmed(line).len() > 0 && preamble(lines) is None ==> preamble(lines.push(line))
            == Some("# Relevant memory (on-device; from prior sessions)\n"@ + ("- "@ + line)),
        text::trimmed(line).len() > 0 && preamble(lines) is Some ==> preamble(lines.push(line))
            == Some(preamble(lines)->0 + "\n"@ + ("- "@ + line)),
{
    let now = lines.push(line);
    assert(now.drop_last() =~= lines);
    if text::trimmed(line).len() > 0 {
        let b = bulleted(kept(lines));
        assert(bulleted(kept(now)) =~= b.push("- "@ + line));
        assert(b.push("- "@ + line).drop_last() =~= b);
        if b.len() == 0 {
            assert(text::joined(b.push("- "@ + line), "\n"@) == "- "@ + line);
        } else {
            let head = "# Relevant memory (on-device; from prior sessions)\n"@;
            let x = text::joined(b, "\n"@);
            assert(head + (x + "\n"@ + ("- "@ + line)) =~= head + x + "\n"@ + ("- "@ + line));
        }
    }
}

} // verus!
