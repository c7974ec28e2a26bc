//! HTML text escaping through `html_escape`.
use vstd::prelude::*;

verus! {

/// `c` escaped for HTML text: `&`, `<` and `>` become entities, every other character
/// stays.
pub open spec fn escape_char(c: char) -> Seq<char> {
    if c == '&' {
        seq!['&', 'a', 'm', 'p', ';']
    } else if c == '<' {
        seq!['&', 'l', 't', ';']
    } else if c == '>' {
        seq!['&', 'g', 't', ';']
    } else {
        seq![c]
    }
}

/// `s` escaped for HTML text, character by character.
pub open spec fn html_text_escape(s: Seq<char>) -> Seq<char>
    decreases s.len(),
{
    if s.len() == 0 {
        seq![]
    } else {
        html_text_escape(s.drop_last()) + escape_char(s.last())
    }
}

/// `html_escape::encode_text`: replaces `&` by `&amp;`, `<` by `&lt;` and `>` by `&gt;`
/// and keeps every other character, as that crate's documentation lists.
#[verifier::external_body]
pub(crate) fn encode_text(s: &str) -> (r: String)
    ensures
        r@ == html_text_escape(s@),
{
    html_escape::encode_text(s).into_owned()
}

/// Escaped text holds no `<` and no `>`: user text cannot open or close a tag.
pub proof fn lemma_escaped_has_no_angle_brackets(s: Seq<char>)
    ensures
        forall|k: int|
            0 <= k < html_text_escape(s).len() ==> #[trigger] html_text_escape(s)[k] != '<'
                && html_text_escape(s)[k] != '>',
    decreases s.len(),
{
    if s.len() > 0 {
        lemma_escaped_has_no_angle_brackets(s.drop_last());
        let a = html_text_escape(s.drop_last());
        let b = escape_char(s.last());
        assert forall|k: int| 0 <= k < (a + b).len() implies #[trigger] (a + b)[k] != '<' && (a
            + b)[k] != '>' by {
            if k >= a.len() {
                assert((a + b)[k] == b[k - a.len()]);
            } else {
                assert((a + b)[k] == a[k]);
            }
        }
    }
}

} // verus!
