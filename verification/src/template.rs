//! Templates: text with places to fill.
//!
//! A place is written `$` and one character, its key. Expanding a template
//! writes out, for each place, the text that is bound to its key, and all
//! other text as it stands.

use crate::syntax::push_char;
use vstd::prelude::*;
use vstd::string::StringExecFns;

verus! {

/// The text bound to `key`: that of the first binding with this key, and no
/// text where there is none.
pub open spec fn filling(bindings: Seq<(char, Seq<char>)>, key: char) -> Seq<char>
    decreases bindings.len(),
{
    if bindings.len() == 0 {
        Seq::empty()
    } else if bindings.first().0 == key {
        bindings.first().1
    } else {
        filling(bindings.drop_first(), key)
    }
}

/// The template with each place filled. A `$` that ends the template is no
/// place: it stands for itself.
pub open spec fn expand(template: Seq<char>, bindings: Seq<(char, Seq<char>)>) -> Seq<char>
    decreases template.len(),
{
    if template.len() == 0 {
        Seq::empty()
    } else if template[0] == '$' && template.len() >= 2 {
        filling(bindings, template[1]) + expand(template.skip(2), bindings)
    } else {
        seq![template[0]] + expand(template.skip(1), bindings)
    }
}

/// Text without a `$` is its own expansion.
pub proof fn law_plain_text_stands(template: Seq<char>, bindings: Seq<(char, Seq<char>)>)
    requires
        forall|i: int| 0 <= i < template.len() ==> template[i] != '$',
    ensures
        expand(template, bindings) == template,
    decreases template.len(),
{
    if template.len() > 0 {
        law_plain_text_stands(template.skip(1), bindings);
        assert(seq![template[0]] + template.skip(1) =~= template);
    }
}

/// A place stands for the text bound to its key, wherever it stands: the
/// expansion of text without a `$`, a place, and more of a template is the
/// text, the text bound to the key, and the expansion of the rest.
pub proof fn law_place_is_filled(
    before: Seq<char>,
    key: char,
    after: Seq<char>,
    bindings: Seq<(char, Seq<char>)>,
)
    requires
        forall|i: int| 0 <= i < before.len() ==> before[i] != '$',
    ensures
        expand(before + seq!['$', key] + after, bindings) == before + filling(bindings, key)
            + expand(after, bindings),
    decreases before.len(),
{
    let template = before + seq!['$', key] + after;
    if before.len() == 0 {
        assert(template.skip(2) =~= after);
        assert(template[1] == key);
        assert(before + filling(bindings, key) + expand(after, bindings) =~= filling(
            bindings,
            key,
        ) + expand(after, bindings));
    } else {
        law_place_is_filled(before.skip(1), key, after, bindings);
        assert(template.skip(1) =~= before.skip(1) + seq!['$', key] + after);
        assert(seq![template[0]] + (before.skip(1) + filling(bindings, key) + expand(
            after,
            bindings,
        )) =~= before + filling(bindings, key) + expand(after, bindings));
    }
}

/// The values of a list of bindings.
pub open spec fn bindings_view(bindings: Seq<(char, String)>) -> Seq<(char, Seq<char>)> {
    Seq::new(bindings.len(), |i: int| (bindings[i].0, bindings[i].1@))
}

fn lookup(bindings: &Vec<(char, String)>, key: char) -> (text: &str)
    ensures
        text@ == filling(bindings_view(bindings@), key),
{
    let ghost all = bindings_view(bindings@);
    let mut i: usize = 0;
    assert(all.skip(0) =~= all);
    while i < bindings.len()
        invariant
            i <= bindings.len(),
            all == bindings_view(bindings@),
            filling(all, key) == filling(all.skip(i as int), key),
        decreases bindings.len() - i,
    {
        assert(all.skip(i as int).first() == all[i as int]);
        assert(all.skip(i as int).drop_first() =~= all.skip(i + 1));
        if bindings[i].0 == key {
            return bindings[i].1.as_str();
        }
        i += 1;
    }
    proof {
        reveal_strlit("");
    }
    ""
}

/// Appends the template, with each place filled, to `out`.
pub fn expand_into(out: &mut String, template: &str, bindings: &Vec<(char, String)>)
    ensures
        final(out)@ == old(out)@ + expand(template@, bindings_view(bindings@)),
{
    let ghost t = template@;
    let ghost b = bindings_view(bindings@);
    let ghost mut rest = t;
    let mut pending = false;
    for c in it: template.chars()
        invariant
            t == template@,
            b == bindings_view(bindings@),
            it.seq() == t,
            rest == t.skip(if pending { it.index() - 1 } else { it.index() as int }),
            pending ==> it.index() > 0 && t[it.index() - 1] == '$',
            old(out)@ + expand(t, b) == out@ + expand(rest, b),
    {
        let ghost i = it.index() as int;
        if pending {
            assert(rest.skip(2) =~= t.skip(i + 1));
            out.append(lookup(bindings, c));
            pending = false;
        } else if c == '$' {
            pending = true;
        } else {
            assert(rest.skip(1) =~= t.skip(i + 1));
            push_char(out, c);
        }
        proof {
            rest = t.skip(if pending { i } else { i + 1 });
        }
    }
    if pending {
        assert(rest.skip(1) =~= Seq::<char>::empty());
        assert(expand(rest.skip(1), b) =~= Seq::<char>::empty());
        push_char(out, '$');
    }
    assert(out@ =~= old(out)@ + expand(t, b));
}

} // verus!
