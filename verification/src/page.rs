//! The title of a fetched web page, read off its token stream.

use html5gum::{Token, Tokenizer};
use vstd::prelude::*;

verus! {

/// One token of an HTML page, as far as the title scan looks at it.
#[derive(Debug)]
pub enum HtmlToken {
    /// A start tag, with its name.
    StartTag(Vec<u8>),
    /// An end tag, with its name.
    EndTag(Vec<u8>),
    /// Literal text.
    Text(Vec<u8>),
    /// A comment, a doctype or a parse error.
    Other,
}

/// The mathematical content of an [`HtmlToken`].
pub enum HtmlTokenView {
    StartTag(Seq<u8>),
    EndTag(Seq<u8>),
    Text(Seq<u8>),
    Other,
}

impl View for HtmlToken {
    type V = HtmlTokenView;

    open spec fn view(&self) -> HtmlTokenView {
        match self {
            HtmlToken::StartTag(name) => HtmlTokenView::StartTag(name@),
            HtmlToken::EndTag(name) => HtmlTokenView::EndTag(name@),
            HtmlToken::Text(text) => HtmlTokenView::Text(text@),
            HtmlToken::Other => HtmlTokenView::Other,
        }
    }
}

impl DeepView for HtmlToken {
    type V = HtmlTokenView;

    open spec fn deep_view(&self) -> HtmlTokenView {
        self@
    }
}

/// The token stream that the HTML tokenizer makes of a page.
pub uninterp spec fn html_tokens(page: Seq<char>) -> Seq<HtmlTokenView>;

/// The text that lossy UTF-8 decoding makes of a byte string.
pub uninterp spec fn lossy_text(bytes: Seq<u8>) -> Seq<char>;

/// Runs `html5gum::Tokenizer` over a page, in its infallible form, and keeps
/// of each token its kind and, for tags and text, its bytes. The contract
/// claims only that the tokens are a function of the page.
#[verifier::external_body]
fn tokenize_html(page: &str) -> (tokens: Vec<HtmlToken>)
    ensures
        tokens.deep_view() == html_tokens(page@),
{
    Tokenizer::new(page).infallible().map(
        |token| match token {
            Token::StartTag(tag) => HtmlToken::StartTag(tag.name.0),
            Token::EndTag(tag) => HtmlToken::EndTag(tag.name.0),
            Token::String(text) => HtmlToken::Text(text.0),
            _ => HtmlToken::Other,
        },
    ).collect()
}

/// Calls `String::from_utf8_lossy`. The contract claims that the text is a
/// function of the bytes, and that bytes which are valid UTF-8 decode to the
/// text that they encode.
#[verifier::external_body]
fn decode_lossy(bytes: &Vec<u8>) -> (text: String)
    ensures
        text@ == lossy_text(bytes@),
        vstd::utf8::valid_utf8(bytes@) ==> text@ == vstd::utf8::decode_utf8(bytes@),
{
    String::from_utf8_lossy(bytes).to_string()
}

/// The name of the title element, in bytes.
pub open spec fn title_name() -> Seq<u8> {
    seq![116u8, 105u8, 116u8, 108u8, 101u8]
}

/// The text of the first title element of a token stream: the text tokens
/// that stand after the first start tag of a title and before the first end
/// tag of one, joined. `in_title` says whether such a start tag has been
/// seen. A stream without an end tag of a title has no title.
pub open spec fn title_bytes(tokens: Seq<HtmlTokenView>, in_title: bool) -> Option<Seq<u8>>
    decreases tokens.len(),
{
    if tokens.len() == 0 {
        None
    } else {
        let rest = tokens.drop_first();
        match tokens[0] {
            HtmlTokenView::EndTag(name) => if name == title_name() {
                Some(Seq::empty())
            } else {
                title_bytes(rest, in_title)
            },
            HtmlTokenView::StartTag(name) => if name == title_name() {
                title_bytes(rest, true)
            } else {
                title_bytes(rest, in_title)
            },
            HtmlTokenView::Text(text) => if in_title {
                match title_bytes(rest, true) {
                    Some(more) => Some(text + more),
                    None => None,
                }
            } else {
                title_bytes(rest, false)
            },
            HtmlTokenView::Other => title_bytes(rest, in_title),
        }
    }
}

/// The title that a token stream gives, its bytes decoded.
pub open spec fn title_of(tokens: Seq<HtmlTokenView>) -> Option<Seq<char>> {
    match title_bytes(tokens, false) {
        Some(bytes) => Some(lossy_text(bytes)),
        None => None,
    }
}

fn is_title(name: &Vec<u8>) -> (yes: bool)
    ensures
        yes == (name@ == title_name()),
{
    let yes = name.len() == 5 && name[0] == 116 && name[1] == 105 && name[2] == 116 && name[3]
        == 108 && name[4] == 101;
    if yes {
        assert(name@ =~= title_name());
    }
    yes
}

fn append_bytes(collected: &mut Vec<u8>, more: &Vec<u8>)
    ensures
        final(collected)@ == old(collected)@ + more@,
{
    let mut i: usize = 0;
    while i < more.len()
        invariant
            i <= more.len(),
            collected@ == old(collected)@ + more@.subrange(0, i as int),
        decreases more.len() - i,
    {
        collected.push(more[i]);
        i += 1;
    }
}

/// With `collected` in front of what the rest of the stream gives.
pub open spec fn after_collected(collected: Seq<u8>, rest: Option<Seq<u8>>) -> Option<Seq<u8>> {
    match rest {
        Some(more) => Some(collected + more),
        None => None,
    }
}

/// The bytes of the first title element of a token stream, if it has one.
pub fn first_title(tokens: &Vec<HtmlToken>) -> (title: Option<Vec<u8>>)
    ensures
        match title {
            Some(bytes) => title_bytes(tokens.deep_view(), false) == Some(bytes@),
            None => title_bytes(tokens.deep_view(), false) is None,
        },
{
    let ghost all = tokens.deep_view();
    let mut collected: Vec<u8> = Vec::new();
    let mut in_title = false;
    let mut i: usize = 0;
    assert(all.subrange(0, all.len() as int) =~= all);
    assert(Seq::<u8>::empty() + Seq::<u8>::empty() =~= Seq::<u8>::empty());
    while i < tokens.len()
        invariant
            i <= tokens.len(),
            all == tokens.deep_view(),
            title_bytes(all, false) == after_collected(
                collected@,
                title_bytes(all.subrange(i as int, all.len() as int), in_title),
            ),
        decreases tokens.len() - i,
    {
        let ghost here = all.subrange(i as int, all.len() as int);
        let ghost before = collected@;
        proof {
            assert(here[0] == tokens[i as int]@);
            assert(here.drop_first() =~= all.subrange(i + 1, all.len() as int));
        }
        match &tokens[i] {
            HtmlToken::StartTag(name) => {
                if is_title(name) {
                    in_title = true;
                }
            },
            HtmlToken::Text(text) => {
                if in_title {
                    append_bytes(&mut collected, text);
                    proof {
                        let rest = title_bytes(here.drop_first(), true);
                        if rest is Some {
                            assert(before + (text@ + rest.unwrap()) =~= (before + text@)
                                + rest.unwrap());
                        }
                    }
                }
            },
            HtmlToken::EndTag(name) => {
                if is_title(name) {
                    assert(before + Seq::<u8>::empty() =~= before);
                    return Some(collected);
                }
            },
            HtmlToken::Other => {},
        }
        i += 1;
    }
    None
}

/// The title of a page: the text of its first title element. A page without
/// a closed title element has none.
pub fn page_title(page: &str) -> (title: Option<String>)
    ensures
        title.deep_view() == title_of(html_tokens(page@)),
{
    let tokens = tokenize_html(page);
    title_from_tokens(&tokens)
}

/// The title that a token stream gives, decoded as UTF-8; bytes that are not
/// UTF-8 are replaced as lossy decoding replaces them.
pub fn title_from_tokens(tokens: &Vec<HtmlToken>) -> (title: Option<String>)
    ensures
        title.deep_view() == title_of(tokens.deep_view()),
        title is Some <==> title_bytes(tokens.deep_view(), false) is Some,
        title is Some && vstd::utf8::valid_utf8(title_bytes(tokens.deep_view(), false).unwrap())
            ==> title.unwrap()@ == vstd::utf8::decode_utf8(
            title_bytes(tokens.deep_view(), false).unwrap(),
        ),
{
    match first_title(tokens) {
        Some(bytes) => Some(decode_lossy(&bytes)),
        None => None,
    }
}

} // verus!
