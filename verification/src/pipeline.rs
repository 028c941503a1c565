//! The pipeline driver: configuration, the per-file processing loop, and the
//! two processors that carry the grammar and theme registries.
use vstd::prelude::*;
use crate::filter::views_of;
use crate::highlight::{
    highlight_text, hl_of, hl_ok, is_default_syntax_registry, is_default_theme_registry,
    load_syntaxes, load_themes, theme_names,
};
use crate::manifest::{json_array_text, manifest_json};
use crate::naming::{extension_of, extension_text};
use crate::render::{
    concat_fragments, document_open, document_prefix, document_text, fragment_text,
    lemma_concat_fragments_push, render_fragment,
};

verus! {

/// The configuration of one run.
#[derive(Debug)]
pub struct ProcessOptions {
    pub match_patterns: Vec<String>,
    pub ignore: Vec<String>,
    pub debug: bool,
    pub filename: Option<String>,
    pub auth_method: AuthMethod,
}

/// How a remote repository is authenticated to when it is cloned.
#[derive(Debug)]
pub enum AuthMethod {
    SSH,
    HTTPS,
}

impl Default for ProcessOptions {
    fn default() -> (r: Self)
        ensures
            views_of(r.match_patterns@) == seq!["**/*.rs"@, "**/*.js"@, "**/*.py"@],
            views_of(r.ignore@) == seq![
                ".git"@,
                "node_modules"@,
                ".DS_Store"@,
                "__pycache__"@,
                "target"@,
            ],
            r.debug == false,
            r.filename is None,
            r.auth_method is SSH,
    {
        let mut pats: Vec<String> = Vec::new();
        pats.push(String::from_str("**/*.rs"));
        pats.push(String::from_str("**/*.js"));
        pats.push(String::from_str("**/*.py"));
        let igs = standard_ignores();
        proof {
            assert(views_of(pats@) =~= seq!["**/*.rs"@, "**/*.js"@, "**/*.py"@]);
        }
        ProcessOptions {
            match_patterns: pats,
            ignore: igs,
            debug: false,
            filename: None,
            auth_method: AuthMethod::SSH,
        }
    }
}

fn standard_ignores() -> (r: Vec<String>)
    ensures
        views_of(r@) == seq![".git"@, "node_modules"@, ".DS_Store"@, "__pycache__"@, "target"@],
{
    let mut igs: Vec<String> = Vec::new();
    igs.push(String::from_str(".git"));
    igs.push(String::from_str("node_modules"));
    igs.push(String::from_str(".DS_Store"));
    igs.push(String::from_str("__pycache__"));
    igs.push(String::from_str("target"));
    proof {
        assert(views_of(igs@) =~= seq![
            ".git"@,
            "node_modules"@,
            ".DS_Store"@,
            "__pycache__"@,
            "target"@,
        ]);
    }
    igs
}

impl ProcessOptions {
    /// The repository-mode defaults: one pattern selecting every file with an
    /// extension, the standard ignore set, SSH authentication.
    pub fn repo_default() -> (r: Self)
        ensures
            views_of(r.match_patterns@) == seq!["**/*.*"@],
            views_of(r.ignore@) == seq![
                ".git"@,
                "node_modules"@,
                ".DS_Store"@,
                "__pycache__"@,
                "target"@,
            ],
            r.debug == false,
            r.filename is None,
            r.auth_method is SSH,
    {
        let mut pats: Vec<String> = Vec::new();
        pats.push(String::from_str("**/*.*"));
        let igs = standard_ignores();
        proof {
            assert(views_of(pats@) =~= seq!["**/*.*"@]);
        }
        ProcessOptions {
            match_patterns: pats,
            ignore: igs,
            debug: false,
            filename: None,
            auth_method: AuthMethod::SSH,
        }
    }
}

/// One selected file handed to the pipeline: its path relative to the root
/// and its text content, `None` when the file could not be read as text.
pub struct FileInput {
    pub rel_path: String,
    pub content: Option<String>,
}

/// What one run produces: the document, the manifest (as a path list and as
/// its JSON serialization), and the paths that were skipped as unreadable.
pub struct RunOutput {
    pub html: String,
    pub manifest_paths: Vec<String>,
    pub manifest_json: String,
    pub skipped: Vec<String>,
}

/// A failure of the highlighting stage on one file; fatal for the whole run.
#[derive(Debug)]
pub enum RenderError {
    Highlight { path: String, message: String },
}

/// The relative paths of the files with readable content, in input order.
pub open spec fn readable_paths(files: Seq<FileInput>) -> Seq<Seq<char>>
    decreases files.len(),
{
    if files.len() == 0 {
        Seq::empty()
    } else {
        let prev = readable_paths(files.drop_last());
        if files.last().content is Some {
            prev.push(files.last().rel_path@)
        } else {
            prev
        }
    }
}

/// The contents of the files with readable content, in input order.
pub open spec fn readable_contents(files: Seq<FileInput>) -> Seq<Seq<char>>
    decreases files.len(),
{
    if files.len() == 0 {
        Seq::empty()
    } else {
        let prev = readable_contents(files.drop_last());
        match files.last().content {
            Some(c) => prev.push(c@),
            None => prev,
        }
    }
}

/// The relative paths of the files whose content was unreadable, in input
/// order.
pub open spec fn skipped_paths(files: Seq<FileInput>) -> Seq<Seq<char>>
    decreases files.len(),
{
    if files.len() == 0 {
        Seq::empty()
    } else {
        let prev = skipped_paths(files.drop_last());
        if files.last().content is None {
            prev.push(files.last().rel_path@)
        } else {
            prev
        }
    }
}

/// The fragments of a run under a given theme: one per readable file, in
/// input order, headed by its relative path, tagged with its extension, and
/// holding the fixed-theme highlight of its content.
pub open spec fn rendered_fragments(files: Seq<FileInput>, theme: Seq<char>) -> Seq<Seq<char>>
    decreases files.len(),
{
    if files.len() == 0 {
        Seq::empty()
    } else {
        let prev = rendered_fragments(files.drop_last(), theme);
        match files.last().content {
            Some(c) => prev.push(
                fragment_text(
                    files.last().rel_path@,
                    extension_text(files.last().rel_path@),
                    hl_of(theme, extension_text(files.last().rel_path@), c@),
                ),
            ),
            None => prev,
        }
    }
}

/// The highlighter accepts every readable file of the run under the theme.
pub open spec fn all_hl_ok(files: Seq<FileInput>, theme: Seq<char>) -> bool {
    forall|t: int| #![trigger files[t]]
        0 <= t < files.len() ==> match files[t].content {
            Some(c) => hl_ok(theme, extension_text(files[t].rel_path@), c@),
            None => true,
        }
}

/// Everything a successful run promises: the manifest lists exactly the
/// readable files in input order, the JSON manifest serializes that list, the
/// skipped list holds exactly the unreadable files, and the document is the
/// fixed wrapper around one fragment per manifest entry, in manifest order,
/// each holding the fixed-theme highlight of that file's content.
pub open spec fn run_ok(files: Seq<FileInput>, theme: Seq<char>, out: RunOutput) -> bool {
    &&& views_of(out.manifest_paths@) == readable_paths(files)
    &&& views_of(out.skipped@) == skipped_paths(files)
    &&& out.manifest_json@ == json_array_text(readable_paths(files))
    &&& out.html@ == document_text(rendered_fragments(files, theme))
}

/// A failed run names a readable input file that the highlighter rejected.
pub open spec fn run_err(files: Seq<FileInput>, theme: Seq<char>, e: RenderError) -> bool {
    e matches RenderError::Highlight { path, .. } ==> exists|t: int| #![trigger files[t]]
        0 <= t < files.len() && files[t].rel_path@ == path@ && match files[t].content {
            Some(c) => !hl_ok(theme, extension_text(path@), c@),
            None => false,
        }
}

fn run_pipeline(
    ss: &syntect::parsing::SyntaxSet,
    ts: &syntect::highlighting::ThemeSet,
    theme_name: &str,
    files: &Vec<FileInput>,
) -> (r: Result<RunOutput, RenderError>)
    requires
        is_default_syntax_registry(*ss),
        is_default_theme_registry(*ts),
        theme_names(*ts).contains(theme_name@),
    ensures
        r is Ok <==> all_hl_ok(files@, theme_name@),
        r matches Ok(out) ==> run_ok(files@, theme_name@, out),
        r matches Err(e) ==> run_err(files@, theme_name@, e),
{
    let mut html = document_open();
    let mut manifest: Vec<String> = Vec::new();
    let mut skipped: Vec<String> = Vec::new();
    let mut i: usize = 0;
    while i < files.len()
        invariant
            is_default_syntax_registry(*ss),
            is_default_theme_registry(*ts),
            theme_names(*ts).contains(theme_name@),
            i <= files@.len(),
            views_of(manifest@) == readable_paths(files@.take(i as int)),
            views_of(skipped@) == skipped_paths(files@.take(i as int)),
            html@ == document_prefix() + concat_fragments(
                rendered_fragments(files@.take(i as int), theme_name@),
            ),
            forall|t: int| #![trigger files@[t]]
                0 <= t < i ==> match files@[t].content {
                    Some(c) => hl_ok(theme_name@, extension_text(files@[t].rel_path@), c@),
                    None => true,
                },
        decreases files@.len() - i,
    {
        proof {
            assert(files@.take(i as int + 1).drop_last() =~= files@.take(i as int));
            assert(files@.take(i as int + 1).last() == files@[i as int]);
        }
        let f = &files[i];
        match &f.content {
            None => {
                skipped.push(f.rel_path.clone());
                proof {
                    assert(views_of(skipped@) =~= skipped_paths(files@.take(i as int + 1)));
                    assert(readable_paths(files@.take(i as int + 1)) == readable_paths(
                        files@.take(i as int),
                    ));
                    assert(rendered_fragments(files@.take(i as int + 1), theme_name@)
                        == rendered_fragments(files@.take(i as int), theme_name@));
                }
            },
            Some(content) => {
                let ext = extension_of(f.rel_path.as_str());
                let body = match highlight_text(
                    ss,
                    ts,
                    theme_name,
                    ext.as_str(),
                    content.as_str(),
                ) {
                    Ok(b) => b,
                    Err(message) => {
                        proof {
                            assert(files@[i as int].rel_path@ == f.rel_path@);
                            assert(!hl_ok(theme_name@, extension_text(f.rel_path@), content@));
                        }
                        return Err(RenderError::Highlight { path: f.rel_path.clone(), message });
                    },
                };
                let frag = render_fragment(f.rel_path.as_str(), ext.as_str(), body.as_str());
                html.append(frag.as_str());
                manifest.push(f.rel_path.clone());
                proof {
                    let rp_old = readable_paths(files@.take(i as int));
                    let rp_new = readable_paths(files@.take(i as int + 1));
                    assert(rp_new == rp_old.push(f.rel_path@));
                    assert(views_of(manifest@) =~= rp_new);
                    assert(rendered_fragments(files@.take(i as int + 1), theme_name@)
                        == rendered_fragments(files@.take(i as int), theme_name@).push(frag@));
                    lemma_concat_fragments_push(
                        rendered_fragments(files@.take(i as int), theme_name@),
                        frag@,
                    );
                    assert(skipped_paths(files@.take(i as int + 1)) == skipped_paths(
                        files@.take(i as int),
                    ));
                }
            },
        }
        i = i + 1;
    }
    proof {
        assert(files@.take(files@.len() as int) =~= files@);
    }
    html.append("</body></html>");
    let mj = manifest_json(&manifest);
    let out = RunOutput { html, manifest_paths: manifest, manifest_json: mj, skipped };
    proof {
        assert(out.html@ =~= document_text(rendered_fragments(files@, theme_name@)));
    }
    Ok(out)
}

/// Processes a cloned repository's files with the dark print theme.
pub struct RepoProcessor {
    syntax_set: syntect::parsing::SyntaxSet,
    theme_set: syntect::highlighting::ThemeSet,
}

impl RepoProcessor {
    #[verifier::type_invariant]
    spec fn wf(self) -> bool {
        &&& is_default_syntax_registry(self.syntax_set)
        &&& is_default_theme_registry(self.theme_set)
        &&& theme_names(self.theme_set).contains("base16-ocean.dark"@)
    }

    /// The processor holds the bundled default grammar registry (newline
    /// variant) and the bundled default theme set, loaded once here and never
    /// replaced: every later call highlights over these same registries.
    pub closed spec fn holds_default_registries(self) -> bool {
        self.wf()
    }

    pub fn new() -> (r: Self)
        ensures
            r.holds_default_registries(),
    {
        RepoProcessor { syntax_set: load_syntaxes(), theme_set: load_themes() }
    }

    /// Renders the given files into one document and manifest, using the
    /// `base16-ocean.dark` theme for every file of the run. Succeeds exactly
    /// when the highlighter accepts every readable file.
    pub fn process_files(&self, files: &Vec<FileInput>) -> (r: Result<RunOutput, RenderError>)
        ensures
            r is Ok <==> all_hl_ok(files@, "base16-ocean.dark"@),
            r matches Ok(out) ==> run_ok(files@, "base16-ocean.dark"@, out),
            r matches Err(e) ==> run_err(files@, "base16-ocean.dark"@, e),
    {
        proof {
            use_type_invariant(&*self);
        }
        run_pipeline(&self.syntax_set, &self.theme_set, "base16-ocean.dark", files)
    }
}

/// Processes a local directory's files with the light print theme.
pub struct DirectoryProcessor {
    syntax_set: syntect::parsing::SyntaxSet,
    theme_set: syntect::highlighting::ThemeSet,
}

impl DirectoryProcessor {
    #[verifier::type_invariant]
    spec fn wf(self) -> bool {
        &&& is_default_syntax_registry(self.syntax_set)
        &&& is_default_theme_registry(self.theme_set)
        &&& theme_names(self.theme_set).contains("InspiredGitHub"@)
    }

    /// The processor holds the bundled default grammar registry (newline
    /// variant) and the bundled default theme set, loaded once here and never
    /// replaced: every later call highlights over these same registries.
    pub closed spec fn holds_default_registries(self) -> bool {
        self.wf()
    }

    pub fn new() -> (r: Self)
        ensures
            r.holds_default_registries(),
    {
        DirectoryProcessor { syntax_set: load_syntaxes(), theme_set: load_themes() }
    }

    /// Renders the given files into one document and manifest, using the
    /// `InspiredGitHub` theme for every file of the run. Succeeds exactly
    /// when the highlighter accepts every readable file.
    pub fn process_files(&self, files: &Vec<FileInput>) -> (r: Result<RunOutput, RenderError>)
        ensures
            r is Ok <==> all_hl_ok(files@, "InspiredGitHub"@),
            r matches Ok(out) ==> run_ok(files@, "InspiredGitHub"@, out),
            r matches Err(e) ==> run_err(files@, "InspiredGitHub"@, e),
    {
        proof {
            use_type_invariant(&*self);
        }
        run_pipeline(&self.syntax_set, &self.theme_set, "InspiredGitHub", files)
    }
}

/// Manifest/document consistency: the document of a successful run holds one
/// fragment per manifest entry, in manifest order, each headed by that entry,
/// tagged with its extension, and holding the fixed-theme highlight of that
/// file's content.
pub proof fn lemma_manifest_document_consistent(files: Seq<FileInput>, theme: Seq<char>)
    ensures
        rendered_fragments(files, theme).len() == readable_paths(files).len(),
        readable_contents(files).len() == readable_paths(files).len(),
        forall|k: int| 0 <= k < readable_paths(files).len()
            ==> #[trigger] rendered_fragments(files, theme)[k] == fragment_text(
                readable_paths(files)[k],
                extension_text(readable_paths(files)[k]),
                hl_of(theme, extension_text(readable_paths(files)[k]), readable_contents(files)[k]),
            ),
    decreases files.len(),
{
    if files.len() > 0 {
        lemma_manifest_document_consistent(files.drop_last(), theme);
        let rp = readable_paths(files);
        let rc = readable_contents(files);
        let rf = rendered_fragments(files, theme);
        let n = readable_paths(files.drop_last()).len();
        assert forall|k: int| 0 <= k < rp.len() implies #[trigger] rf[k] == fragment_text(
            rp[k],
            extension_text(rp[k]),
            hl_of(theme, extension_text(rp[k]), rc[k]),
        ) by {
            if k < n {
                assert(rp[k] == readable_paths(files.drop_last())[k]);
                assert(rc[k] == readable_contents(files.drop_last())[k]);
                assert(rf[k] == rendered_fragments(files.drop_last(), theme)[k]);
            }
        }
    }
}

pub proof fn lemma_readable_membership(files: Seq<FileInput>, t: int)
    requires
        0 <= t < files.len(),
        files[t].content is Some,
    ensures
        readable_paths(files).contains(files[t].rel_path@),
    decreases files.len(),
{
    let rp = readable_paths(files);
    let prev = readable_paths(files.drop_last());
    if t == files.len() - 1 {
        assert(rp[prev.len() as int] == files[t].rel_path@);
    } else {
        lemma_readable_membership(files.drop_last(), t);
        let j = choose|j: int| 0 <= j < prev.len() && prev[j] == files.drop_last()[t].rel_path@;
        assert(files.drop_last()[t] == files[t]);
        if files.last().content is Some {
            assert(rp[j] == prev[j]);
        }
    }
}

pub proof fn lemma_skipped_membership(files: Seq<FileInput>, t: int)
    requires
        0 <= t < files.len(),
        files[t].content is None,
    ensures
        skipped_paths(files).contains(files[t].rel_path@),
    decreases files.len(),
{
    let sp = skipped_paths(files);
    let prev = skipped_paths(files.drop_last());
    if t == files.len() - 1 {
        assert(sp[prev.len() as int] == files[t].rel_path@);
    } else {
        lemma_skipped_membership(files.drop_last(), t);
        let j = choose|j: int| 0 <= j < prev.len() && prev[j] == files.drop_last()[t].rel_path@;
        assert(files.drop_last()[t] == files[t]);
        if files.last().content is None {
            assert(sp[j] == prev[j]);
        }
    }
}

/// Every manifest entry names some input file that had readable content.
pub proof fn lemma_readable_source(files: Seq<FileInput>, p: Seq<char>)
    requires
        readable_paths(files).contains(p),
    ensures
        exists|s: int|
            0 <= s < files.len() && #[trigger] files[s].rel_path@ == p && files[s].content is Some,
    decreases files.len(),
{
    if files.len() > 0 {
        let rp = readable_paths(files);
        let prev = readable_paths(files.drop_last());
        if files.last().content is Some {
            let j = choose|j: int| 0 <= j < rp.len() && rp[j] == p;
            if j == prev.len() {
                assert(files[files.len() - 1].rel_path@ == p);
            } else {
                assert(prev[j] == p);
                assert(prev.contains(p));
                lemma_readable_source(files.drop_last(), p);
                let s = choose|s: int|
                    0 <= s < files.drop_last().len() && files.drop_last()[s].rel_path@ == p
                        && files.drop_last()[s].content is Some;
                assert(files[s].rel_path@ == p && files[s].content is Some);
            }
        } else {
            lemma_readable_source(files.drop_last(), p);
            let s = choose|s: int|
                0 <= s < files.drop_last().len() && files.drop_last()[s].rel_path@ == p
                    && files.drop_last()[s].content is Some;
            assert(files[s].rel_path@ == p && files[s].content is Some);
        }
    }
}

/// Fallback rendering: a file with readable content appears in the manifest of
/// a successful run whatever its extension; nothing about the extension
/// conditions membership.
pub proof fn lemma_fallback_keeps_file(
    files: Seq<FileInput>,
    theme: Seq<char>,
    out: RunOutput,
    t: int,
)
    requires
        run_ok(files, theme, out),
        0 <= t < files.len(),
        files[t].content is Some,
    ensures
        views_of(out.manifest_paths@).contains(files[t].rel_path@),
{
    lemma_readable_membership(files, t);
}

/// Partial-failure tolerance: when the input paths are distinct, an unreadable
/// file of a successful run is recorded as skipped and is absent from the
/// manifest, while every other file is present.
pub proof fn lemma_unreadable_excluded(
    files: Seq<FileInput>,
    theme: Seq<char>,
    out: RunOutput,
    t: int,
)
    requires
        run_ok(files, theme, out),
        0 <= t < files.len(),
        files[t].content is None,
        forall|a: int, b: int|
            0 <= a < b < files.len() ==> files[a].rel_path@ != files[b].rel_path@,
    ensures
        !views_of(out.manifest_paths@).contains(files[t].rel_path@),
        views_of(out.skipped@).contains(files[t].rel_path@),
{
    lemma_skipped_membership(files, t);
    if views_of(out.manifest_paths@).contains(files[t].rel_path@) {
        lemma_readable_source(files, files[t].rel_path@);
        let s = choose|s: int|
            0 <= s < files.len() && files[s].rel_path@ == files[t].rel_path@ && files[s].content
                is Some;
        if s < t {
            assert(files[s].rel_path@ != files[t].rel_path@);
        } else {
            assert(files[t].rel_path@ != files[s].rel_path@);
        }
    }
}

/// Re-running on the same inputs yields a byte-identical JSON manifest and a
/// byte-identical document.
pub proof fn lemma_rerun_same_output(
    files: Seq<FileInput>,
    theme: Seq<char>,
    out1: RunOutput,
    out2: RunOutput,
)
    requires
        run_ok(files, theme, out1),
        run_ok(files, theme, out2),
    ensures
        out1.manifest_json@ == out2.manifest_json@,
        out1.html@ == out2.html@,
        views_of(out1.manifest_paths@) == views_of(out2.manifest_paths@),
{
}

/// The output stem of a run: the configured name when one is given, the
/// derived name otherwise.
pub fn output_stem(filename: &Option<String>, derived: &str) -> (r: String)
    ensures
        filename matches Some(f) ==> r@ == f@,
        filename is None ==> r@ == derived@,
{
    match filename {
        Some(f) => f.clone(),
        None => derived.to_owned(),
    }
}

/// The output directory's name for a given stem.
pub fn output_dir_name(stem: &str) -> (r: String)
    ensures
        r@ == stem@ + "_generated"@,
{
    let mut r = stem.to_owned();
    r.append("_generated");
    r
}

} // verus!
