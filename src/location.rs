//! The gym's postal address from the contact block of its home page.

use vstd::prelude::*;

use crate::agenda::{cell_text, chars_eq, strings_view, text_of};
use crate::models::opt_view;
use crate::page::{block_paragraphs, block_paragraphs_of, paras_view};
use crate::schedule::CrossfitScraper;
use crate::text::{chars_of, contains, contains_chars, join, join_chars, push_chars, string_of};

verus! {

/// The word that heads the contact block.
pub open spec fn contact_label() -> Seq<char> {
    seq!['K', 'o', 'n', 't', 'a', 'k', 't']
}

/// The line of the contact block that names the gym itself.
pub open spec fn gym_name_line() -> Seq<char> {
    seq!['C', 'r', 'o', 's', 's', 'F', 'i', 't', ' ', 'R', 'z', 'e', 's', 'z', 'ó', 'w', ' ', '2', '.', '0']
}

pub open spec fn country() -> Seq<char> {
    seq!['P', 'o', 'l', 'a', 'n', 'd']
}

pub open spec fn comma() -> Seq<char> {
    seq![',', ' ']
}

/// The address lines of a contact block, from the text nodes of its
/// paragraphs: each paragraph's text, leaving out the blank ones, the heading
/// and the gym's own name.
pub open spec fn address_lines(paras: Seq<Seq<Seq<char>>>) -> Seq<Seq<char>>
    decreases paras.len(),
{
    if paras.len() == 0 {
        Seq::empty()
    } else {
        let t = text_of(paras[0]);
        let rest = address_lines(paras.drop_first());
        if t.len() == 0 || t == contact_label() || t == gym_name_line() {
            rest
        } else {
            seq![t] + rest
        }
    }
}

/// The address of a contact block: its lines joined by `, `, ending in the
/// country where it is not named; `None` where no line is left.
pub open spec fn address_of(paras: Seq<Seq<Seq<char>>>) -> Option<Seq<char>> {
    let lines = address_lines(paras);
    if lines.len() == 0 {
        None
    } else {
        let joined = join(lines, comma());
        if contains(joined, country()) {
            Some(joined)
        } else {
            Some(joined + comma() + country())
        }
    }
}

/// The address given by the text nodes of the paragraphs of a contact block.
pub fn address_from_paragraphs(paras: &Vec<Vec<String>>) -> (r: Option<String>)
    ensures
        opt_view(r) == address_of(paras_view(paras@)),
{
    let ghost pv = paras_view(paras@);
    let label = chars_of("Kontakt");
    let gym = chars_of("CrossFit Rzeszów 2.0");
    proof {
        reveal_strlit("Kontakt");
        reveal_strlit("CrossFit Rzeszów 2.0");
        assert(label@ =~= contact_label());
        assert(gym@ =~= gym_name_line());
    }
    let mut kept: Vec<Vec<char>> = Vec::new();
    let mut i: usize = 0;
    proof {
        assert(pv.skip(0) =~= pv);
        assert(kept@.map_values(|p: Vec<char>| p@) + address_lines(pv) =~= address_lines(pv));
    }
    while i < paras.len()
        invariant
            i <= paras@.len(),
            pv == paras_view(paras@),
            label@ == contact_label(),
            gym@ == gym_name_line(),
            kept@.map_values(|p: Vec<char>| p@) + address_lines(pv.skip(i as int)) == address_lines(pv),
        decreases paras@.len() - i,
    {
        let t = cell_text(&paras[i]);
        proof {
            let rest = pv.skip(i as int);
            assert(rest[0] == strings_view(paras@[i as int]@));
            assert(rest.drop_first() =~= pv.skip(i + 1));
        }
        if t.len() > 0 && !chars_eq(&t, &label) && !chars_eq(&t, &gym) {
            let ghost prev = kept@;
            kept.push(t);
            proof {
                let tail = address_lines(pv.skip(i + 1));
                assert(kept@.map_values(|p: Vec<char>| p@) =~= prev.map_values(|p: Vec<char>| p@).push(t@));
                assert(prev.map_values(|p: Vec<char>| p@).push(t@) + tail
                    =~= prev.map_values(|p: Vec<char>| p@) + (seq![t@] + tail));
            }
        }
        i += 1;
    }
    proof {
        assert(pv.skip(i as int).len() == 0);
        assert(kept@.map_values(|p: Vec<char>| p@) + Seq::<Seq<char>>::empty() =~= kept@.map_values(|p: Vec<char>| p@));
    }
    if kept.len() == 0 {
        return None;
    }
    let sep = chars_of(", ");
    let name = chars_of("Poland");
    proof {
        reveal_strlit(", ");
        reveal_strlit("Poland");
        assert(sep@ =~= comma());
        assert(name@ =~= country());
    }
    let mut joined = join_chars(&kept, &sep);
    if !contains_chars(&joined, &name) {
        push_chars(&mut joined, &sep);
        push_chars(&mut joined, &name);
    }
    Some(string_of(&joined))
}

/// The address of the first contact block of a page, as scraper reads its
/// paragraphs; `None` where the page has no contact block.
pub open spec fn page_address(html: Seq<char>) -> Option<Seq<char>> {
    match block_paragraphs_of(html, "address"@, "p"@) {
        Some(paras) => address_of(paras),
        None => None,
    }
}

impl CrossfitScraper {
    /// The gym's address from the first contact block of its home page, if the
    /// page has one with an address line.
    pub fn resolve_location(&self, html: &str) -> (r: Option<String>)
        ensures
            opt_view(r) == page_address(html@),
    {
        match block_paragraphs(html, "address", "p") {
            Some(paras) => address_from_paragraphs(&paras),
            None => None,
        }
    }
}

} // verus!
