//! URLs: those of apps, and the share URLs of objects.

use vstd::prelude::*;
use vstd::string::*;

use crate::text::{has_prefix, labelled, strip_prefix};

verus! {

/// What `url::Url::parse` makes of a text: the URL in its normal form, or the message of the
/// error.
pub uninterp spec fn url_value(s: Seq<char>) -> Result<Seq<char>, Seq<char>>;

/// Calls `url::Url::parse` and renders the URL. The contract claims that the outcome is a
/// function of the text.
#[verifier::external_body]
pub(crate) fn parse_url(s: &str) -> (result: Result<String, String>)
    ensures
        result is Ok <==> url_value(s@) is Ok,
        result matches Ok(url) ==> url_value(s@)->Ok_0 == url@,
        result matches Err(e) ==> url_value(s@)->Err_0 == e@,
{
    match url::Url::parse(s) {
        Ok(url) => Ok(url.to_string()),
        Err(e) => Err(e.to_string()),
    }
}

/// The form in which a share URL is handed out: `sia://` opens the app.
pub open spec fn share_form(url: Seq<char>) -> Seq<char> {
    if has_prefix(url, "https://"@) {
        "sia://"@ + url.skip("https://"@.len() as int)
    } else {
        url
    }
}

/// The form in which a share URL is fetched.
pub open spec fn fetch_form(url: Seq<char>) -> Seq<char> {
    if has_prefix(url, "sia://"@) {
        "https://"@ + url.skip("sia://"@.len() as int)
    } else {
        url
    }
}

/// Turns the share URL of an object into the form in which it is handed out.
pub fn share_object_url(url: &str) -> (shared: String)
    ensures
        shared@ == share_form(url@),
        forall|rest: Seq<char>|
            url@ == #[trigger] ("https://"@ + rest) ==> shared@ == "sia://"@ + rest,
        (forall|rest: Seq<char>| url@ != #[trigger] ("https://"@ + rest)) ==> shared@ == url@,
{
    proof {
        lemma_forms(url@);
    }
    match strip_prefix(url, "https://") {
        Some(rest) => labelled("sia://", rest),
        None => url.to_string(),
    }
}

/// Turns a share URL, of scheme `https://` or `sia://`, into the form in which it is fetched.
pub fn shared_object_url(url: &str) -> (fetched: String)
    ensures
        fetched@ == fetch_form(url@),
        forall|rest: Seq<char>|
            url@ == #[trigger] ("sia://"@ + rest) ==> fetched@ == "https://"@ + rest,
        (forall|rest: Seq<char>| url@ != #[trigger] ("sia://"@ + rest)) ==> fetched@ == url@,
{
    proof {
        lemma_forms(url@);
    }
    match strip_prefix(url, "sia://") {
        Some(rest) => labelled("https://", rest),
        None => url.to_string(),
    }
}

/// Turns a share URL into the form in which it is fetched, and parses it.
pub fn parse_shared_object_url(url: &str) -> (result: Result<String, String>)
    ensures
        result is Ok <==> url_value(fetch_form(url@)) is Ok,
        result matches Ok(parsed) ==> url_value(fetch_form(url@)) == Ok::<Seq<char>, Seq<char>>(
            parsed@,
        ),
        result matches Err(e) ==> url_value(fetch_form(url@)) == Err::<Seq<char>, Seq<char>>(e@),
{
    parse_url(shared_object_url(url).as_str())
}

/// An `https://` URL that was shared is fetched as it was. URLs that are fetched are never of
/// scheme `sia://`.
pub proof fn lemma_share_and_fetch(url: Seq<char>)
    ensures
        has_prefix(url, "https://"@) ==> fetch_form(share_form(url)) == url,
        !has_prefix(url, "https://"@) ==> fetch_form(share_form(url)) == fetch_form(url),
        !has_prefix(fetch_form(url), "sia://"@),
{
    reveal_strlit("https://");
    reveal_strlit("sia://");
    let https = "https://"@;
    let sia = "sia://"@;
    if has_prefix(url, https) {
        let shared = share_form(url);
        assert(shared.take(sia.len() as int) =~= sia);
        assert(shared.skip(sia.len() as int) =~= url.skip(https.len() as int));
        assert(https + url.skip(https.len() as int) =~= url) by {
            assert(url =~= url.take(https.len() as int) + url.skip(https.len() as int));
        }
    }
    if has_prefix(url, sia) {
        let fetched = fetch_form(url);
        assert(fetched[0] == 'h');
        assert(sia[0] == 's');
        if has_prefix(fetched, sia) {
            assert(fetched.take(sia.len() as int)[0] == fetched[0]);
        }
    }
}

/// A share URL is handed out with `sia://` in the place of `https://`, and fetched with `https://`
/// in the place of `sia://`. What follows is left as it is, and so are other URLs.
pub proof fn lemma_forms(url: Seq<char>)
    ensures
        forall|rest: Seq<char>|
            url == #[trigger] ("https://"@ + rest) ==> share_form(url) == "sia://"@ + rest,
        (forall|rest: Seq<char>| url != #[trigger] ("https://"@ + rest)) ==> share_form(url) == url,
        forall|rest: Seq<char>|
            url == #[trigger] ("sia://"@ + rest) ==> fetch_form(url) == "https://"@ + rest,
        (forall|rest: Seq<char>| url != #[trigger] ("sia://"@ + rest)) ==> fetch_form(url) == url,
{
    let https = "https://"@;
    let sia = "sia://"@;
    assert forall|rest: Seq<char>| url == #[trigger] (https + rest) implies share_form(url) == sia
        + rest by {
        assert(url.take(https.len() as int) =~= https);
        assert(url.skip(https.len() as int) =~= rest);
    }
    assert forall|rest: Seq<char>| url == #[trigger] (sia + rest) implies fetch_form(url) == https
        + rest by {
        assert(url.take(sia.len() as int) =~= sia);
        assert(url.skip(sia.len() as int) =~= rest);
    }
    if has_prefix(url, https) {
        assert(url =~= https + url.skip(https.len() as int));
    }
    if has_prefix(url, sia) {
        assert(url =~= sia + url.skip(sia.len() as int));
    }
}

} // verus!
