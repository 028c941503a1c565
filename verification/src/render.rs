//! Document assembly: each file becomes a heading plus a code block, and the
//! fragments are concatenated inside a fixed print-oriented page.
use vstd::prelude::*;

verus! {

/// The fixed stylesheet embedded in every document.
pub open spec fn style_text() -> Seq<char> {
    "\nbody {\n    font: 10pt Georgia, \"Times New Roman\", Times, serif;\n    line-height: 1.3;\n    margin: .5cm .5cm .5cm 1.5cm;\n}\n.pagebreak {\n    margin-top: 50px;\n}\n"@
}

/// Everything the document holds before the first fragment.
pub open spec fn document_prefix() -> Seq<char> {
    "<html><head><style>"@ + style_text() + "</style></head><body>"@
}

/// Everything the document holds after the last fragment.
pub open spec fn document_suffix() -> Seq<char> {
    "</body></html>"@
}

/// One file's contribution: a heading with its relative path, then a code
/// block tagged with its extension, holding the rendered body.
pub open spec fn fragment_text(path: Seq<char>, ext: Seq<char>, body: Seq<char>) -> Seq<char> {
    "<h2>"@ + path + "</h2><pre><code class=\"language-"@ + ext + "\">"@ + body
        + "</code></pre>"@
}

pub open spec fn concat_fragments(frags: Seq<Seq<char>>) -> Seq<char>
    decreases frags.len(),
{
    if frags.len() == 0 {
        Seq::empty()
    } else {
        frags[0] + concat_fragments(frags.drop_first())
    }
}

pub proof fn lemma_concat_fragments_push(frags: Seq<Seq<char>>, f: Seq<char>)
    ensures
        concat_fragments(frags.push(f)) == concat_fragments(frags) + f,
    decreases frags.len(),
{
    if frags.len() == 0 {
        assert(frags.push(f).drop_first() =~= Seq::<Seq<char>>::empty());
        assert(frags.push(f)[0] == f);
        assert(concat_fragments(Seq::<Seq<char>>::empty()) == Seq::<char>::empty());
        assert(concat_fragments(frags.push(f)) == f + Seq::<char>::empty());
        assert(concat_fragments(frags.push(f)) =~= concat_fragments(frags) + f);
    } else {
        assert(frags.push(f).drop_first() =~= frags.drop_first().push(f));
        lemma_concat_fragments_push(frags.drop_first(), f);
        assert(frags.push(f)[0] == frags[0]);
        assert(concat_fragments(frags.push(f)) == frags[0] + (concat_fragments(frags.drop_first())
            + f));
        assert(concat_fragments(frags.push(f)) =~= concat_fragments(frags) + f);
    }
}

/// The document around an ordered run of fragments.
pub open spec fn document_text(frags: Seq<Seq<char>>) -> Seq<char> {
    document_prefix() + concat_fragments(frags) + document_suffix()
}

/// Renders one file's fragment.
pub fn render_fragment(path: &str, ext: &str, body: &str) -> (r: String)
    ensures
        r@ == fragment_text(path@, ext@, body@),
{
    let mut r = String::new();
    r.append("<h2>");
    r.append(path);
    r.append("</h2><pre><code class=\"language-");
    r.append(ext);
    r.append("\">");
    r.append(body);
    r.append("</code></pre>");
    proof {
        assert(r@ =~= fragment_text(path@, ext@, body@));
    }
    r
}

/// Opens the document: the wrapper up to and including the body tag.
pub fn document_open() -> (r: String)
    ensures
        r@ == document_prefix(),
{
    let mut r = String::new();
    r.append("<html><head><style>");
    r.append(
        "\nbody {\n    font: 10pt Georgia, \"Times New Roman\", Times, serif;\n    line-height: 1.3;\n    margin: .5cm .5cm .5cm 1.5cm;\n}\n.pagebreak {\n    margin-top: 50px;\n}\n",
    );
    r.append("</style></head><body>");
    proof {
        assert(r@ =~= document_prefix());
    }
    r
}

} // verus!
