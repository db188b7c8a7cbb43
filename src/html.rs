use vstd::prelude::*;

verus! {

/// The HTML that the sanitiser keeps of a text, given the tags and the
/// attributes of any tag that it allows beyond its defaults.
pub uninterp spec fn sanitized(html: Seq<char>, tags: Seq<Seq<char>>, attributes: Seq<Seq<char>>) -> Seq<char>;

pub open spec fn views(v: Seq<String>) -> Seq<Seq<char>> {
    v.map_values(|s: String| s@)
}

/// Relies on `ammonia::Builder` with its default policy, widened by
/// `add_tags` and `add_generic_attributes`, and on `Builder::clean`: the
/// cleaned document depends on the text and the widening alone. `clean`
/// panics when a tag whose content the default policy removes (`script`,
/// `style`) is allowed, or when `rel` is allowed on every tag while the
/// default policy sets link relations; those widenings are excluded.
#[verifier::external_body]
fn ammonia_clean(html: &str, tags: &Vec<String>, attributes: &Vec<String>) -> (r: String)
    requires
        !views(tags@).contains("script"@),
        !views(tags@).contains("style"@),
        !views(attributes@).contains("rel"@),
    ensures
        r@ == sanitized(html@, views(tags@), views(attributes@)),
{
    ammonia::Builder::default()
        .add_tags(tags.iter())
        .add_generic_attributes(attributes.iter())
        .clean(html)
        .to_string()
}

/// Cleans untrusted HTML for display: besides the default policy, images and
/// their lazy-loading attribute stay.
pub fn sanitize_html(html: &str) -> (r: String)
    ensures
        r@ == sanitized(html@, seq!["img"@], seq!["loading"@]),
{
    let mut tags: Vec<String> = Vec::new();
    tags.push(String::from_str("img"));
    let mut attributes: Vec<String> = Vec::new();
    attributes.push(String::from_str("loading"));
    assert(views(tags@) =~= seq!["img"@]);
    assert(views(attributes@) =~= seq!["loading"@]);
    proof {
        reveal_strlit("img");
        reveal_strlit("script");
        reveal_strlit("style");
        reveal_strlit("loading");
        reveal_strlit("rel");
        assert("img"@ != "script"@) by {
            assert("img"@[0] != "script"@[0]);
        }
        assert("img"@ != "style"@) by {
            assert("img"@[0] != "style"@[0]);
        }
        assert("loading"@ != "rel"@) by {
            assert("loading"@.len() != "rel"@.len());
        }
        assert(!views(tags@).contains("script"@)) by {
            if views(tags@).contains("script"@) {
                let i = choose|i: int| 0 <= i < views(tags@).len() && views(tags@)[i] == "script"@;
            }
        }
        assert(!views(tags@).contains("style"@)) by {
            if views(tags@).contains("style"@) {
                let i = choose|i: int| 0 <= i < views(tags@).len() && views(tags@)[i] == "style"@;
            }
        }
        assert(!views(attributes@).contains("rel"@)) by {
            if views(attributes@).contains("rel"@) {
                let i = choose|i: int| 0 <= i < views(attributes@).len() && views(attributes@)[i] == "rel"@;
            }
        }
    }
    ammonia_clean(html, &tags, &attributes)
}

} // verus!
