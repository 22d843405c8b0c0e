//! The transform pipeline for one document: frontmatter extraction, body
//! rendering, callout and image rewriting, then link discovery and
//! rewriting under the visibility policy as the last stage.
//!
//! Reading a link target's file is the caller's work: `transform_targets`
//! names the target paths a document references, in order, and
//! `markdown_to_html` takes their contents (`None` for an unreadable one)
//! in the same order.  A missing entry counts as unreadable.
use vstd::prelude::*;

use crate::bytes::subvec;
use crate::callout::{rewrite_callouts, rewrite_callouts_exec};
use crate::frontmatter::{
    body_of, markdown_to_metadata, metadata_result_ok, spec_body, spec_split_frontmatter,
};
use crate::html::{
    closed_tags, doc_hrefs, lemma_no_private_target_exposed, public_stripped, rewrite_images,
    rewrite_images_exec, rewrite_links, rewrite_links_exec, scan_doc_hrefs,
};
use crate::model::{Link, Metadata, TransformError, UserConfig};
use crate::paths::{note_id_of, resolve_relative_path, spec_note_id, spec_resolve_relative_path};
use crate::render::{html_of, render_markdown};
use crate::yaml::{field_bool, yaml_doc};

verus! {

/// The visibility a link target's content gives it: `None` (unknown) for
/// an unreadable target, private for one without a well-formed public
/// frontmatter flag, else its `public` flag.
pub open spec fn spec_target_visibility(content: Option<Seq<u8>>) -> Option<bool> {
    match content {
        None => None,
        Some(c) => match spec_split_frontmatter(c) {
            None => Some(false),
            Some((block, _body)) => match yaml_doc(block) {
                None => Some(false),
                Some(d) => Some(field_bool(d, "public"@) == Some(true)),
            },
        },
    }
}

/// The visibility of the `i`-th target, out of the contents handed in;
/// a missing entry counts as unreadable.
pub open spec fn spec_vis_at(targets: Seq<Option<Vec<u8>>>, i: int) -> Option<bool> {
    if 0 <= i < targets.len() {
        spec_target_visibility(targets[i].deep_view())
    } else {
        None
    }
}

/// The visibility of one link target, from its content when it could be
/// read.
pub fn target_visibility(content: &Option<Vec<u8>>) -> (r: Option<bool>)
    ensures
        r == spec_target_visibility(content.deep_view()),
{
    match content {
        None => None,
        Some(c) => {
            proof {
                assert(c.deep_view() =~= c@);
            }
            match markdown_to_metadata(c.as_slice()) {
                Ok(m) => Some(m.is_public()),
                Err(_) => Some(false),
            }
        },
    }
}

/// The rendered body with marked quotations turned into callouts and
/// parent-directory image sources made site-root-relative: the markup
/// whose document links the pipeline discovers and rewrites.
pub open spec fn spec_prepared_html(source: Seq<u8>) -> Seq<u8> {
    rewrite_images(rewrite_callouts(html_of(spec_body(source))))
}

/// The markup the pipeline produces for a document: the prepared markup
/// with its document links rewritten under the targets' visibilities and
/// the policy.  The link rewrite is the last stage, so what is proved of
/// it holds of the markup this function returns.
pub open spec fn spec_transformed_html(
    source: Seq<u8>,
    targets: Seq<Option<Vec<u8>>>,
    expose: bool,
    icon: Seq<u8>,
) -> Seq<u8> {
    let x = spec_prepared_html(source);
    let vis = Seq::new(doc_hrefs(x).len(), |i: int| spec_vis_at(targets, i));
    rewrite_links(x, vis, expose, icon)
}

/// What the discovered links must say: one entry per document href of the
/// prepared markup, in order, from this note to the resolved target
/// path, the target's note id, and the visibility its content gave it.
pub open spec fn links_ok(
    links: Seq<Link>,
    file_path: Seq<u8>,
    file_name: Seq<u8>,
    hrefs: Seq<Seq<u8>>,
    targets: Seq<Option<Vec<u8>>>,
) -> bool {
    &&& links.len() == hrefs.len()
    &&& forall|i: int|
        0 <= i < links.len() ==> (#[trigger] links[i]).source@ == file_name
    &&& forall|i: int|
        0 <= i < links.len() ==> (#[trigger] links[i]).target_path@
            == spec_resolve_relative_path(file_path, hrefs[i])
    &&& forall|i: int|
        0 <= i < links.len() ==> (#[trigger] links[i]).target@ == spec_note_id(
            spec_resolve_relative_path(file_path, hrefs[i]),
        )
    &&& forall|i: int|
        0 <= i < links.len() ==> (#[trigger] links[i]).target_public == spec_vis_at(targets, i)
}

/// The paths of the documents that `source_markdown` references, in
/// document order: each document href of the prepared markup, resolved
/// against the directory of `file_path`.  The caller reads these files
/// and hands their contents to `markdown_to_html`.
pub fn transform_targets(file_path: &[u8], source_markdown: &[u8]) -> (r: Vec<Vec<u8>>)
    ensures
        r@.len() == doc_hrefs(spec_prepared_html(source_markdown@)).len(),
        forall|i: int|
            0 <= i < r@.len() ==> (#[trigger] r@[i])@ == spec_resolve_relative_path(
                file_path@,
                doc_hrefs(spec_prepared_html(source_markdown@))[i],
            ),
{
    let body = body_of(source_markdown);
    let h0 = render_markdown(body.as_slice());
    let h1 = rewrite_callouts_exec(h0.as_slice());
    let h2 = rewrite_images_exec(h1.as_slice());
    let hrefs = scan_doc_hrefs(h2.as_slice());
    let ghost ghrefs = doc_hrefs(spec_prepared_html(source_markdown@));
    let mut out: Vec<Vec<u8>> = Vec::new();
    let mut i: usize = 0;
    while i < hrefs.len()
        invariant
            0 <= i <= hrefs@.len(),
            hrefs@.map_values(|v: Vec<u8>| v@) == ghrefs,
            out@.len() == i,
            forall|j: int|
                0 <= j < i ==> (#[trigger] out@[j])@ == spec_resolve_relative_path(
                    file_path@,
                    ghrefs[j],
                ),
        decreases hrefs.len() - i,
    {
        proof {
            assert(hrefs@[i as int]@ == ghrefs[i as int]);
        }
        let path = resolve_relative_path(file_path, hrefs[i].as_slice());
        out.push(path);
        i = i + 1;
    }
    out
}

/// Transforms one document: extracts its metadata, renders its body,
/// rewrites marked quotations into callouts and parent-directory image
/// sources to site-root-relative paths, and rewrites the document links
/// last, under the policy.  `target_sources` holds the contents of the
/// files named by `transform_targets`, in the same order, `None` for one
/// that could not be read.  The result is the rewritten markup, the
/// metadata, and one link record per document reference; the one error
/// is a frontmatter block that is not well-formed structured text.
pub fn markdown_to_html(
    file_path: &[u8],
    file_name: &[u8],
    source_markdown: &[u8],
    config: &UserConfig,
    target_sources: &Vec<Option<Vec<u8>>>,
) -> (r: Result<(Vec<u8>, Metadata, Vec<Link>), TransformError>)
    ensures
        r is Ok <==> (match spec_split_frontmatter(source_markdown@) {
            None => true,
            Some((block, _body)) => yaml_doc(block) is Some,
        }),
        r matches Ok(t) ==> metadata_result_ok(source_markdown@, Ok(t.1)),
        r matches Ok(t) ==> t.0@ == spec_transformed_html(
            source_markdown@,
            target_sources@,
            config.private.expose,
            config.private.icon@,
        ),
        r matches Ok(t) ==> links_ok(
            t.2@,
            file_path@,
            file_name@,
            doc_hrefs(spec_prepared_html(source_markdown@)),
            target_sources@,
        ),
        r matches Err(e) ==> metadata_result_ok(source_markdown@, Err(e)),
{
    let metadata = match markdown_to_metadata(source_markdown) {
        Ok(m) => m,
        Err(e) => {
            return Err(e);
        },
    };
    let body = body_of(source_markdown);
    let h0 = render_markdown(body.as_slice());
    let h1 = rewrite_callouts_exec(h0.as_slice());
    let h2 = rewrite_images_exec(h1.as_slice());
    let hrefs = scan_doc_hrefs(h2.as_slice());
    let ghost gx = spec_prepared_html(source_markdown@);
    let ghost ghrefs = doc_hrefs(gx);
    let ghost gvis = Seq::new(ghrefs.len(), |i: int| spec_vis_at(target_sources@, i));
    let mut vis: Vec<Option<bool>> = Vec::new();
    let mut i: usize = 0;
    while i < hrefs.len()
        invariant
            0 <= i <= hrefs@.len(),
            hrefs@.len() == ghrefs.len(),
            vis@.len() == i,
            forall|j: int| 0 <= j < i ==> vis@[j] == spec_vis_at(target_sources@, j),
        decreases hrefs.len() - i,
    {
        let v: Option<bool> = if i < target_sources.len() {
            target_visibility(&target_sources[i])
        } else {
            None
        };
        vis.push(v);
        i = i + 1;
    }
    proof {
        assert(vis@ =~= gvis);
    }
    let h3 = rewrite_links_exec(
        h2.as_slice(),
        &vis,
        config.private.expose,
        config.private.icon.as_slice(),
    );
    let mut links: Vec<Link> = Vec::new();
    let mut k: usize = 0;
    while k < hrefs.len()
        invariant
            0 <= k <= hrefs@.len(),
            hrefs@.map_values(|v: Vec<u8>| v@) == ghrefs,
            vis@.len() == ghrefs.len(),
            forall|j: int| 0 <= j < vis@.len() ==> vis@[j] == spec_vis_at(target_sources@, j),
            links@.len() == k,
            forall|j: int|
                0 <= j < k ==> (#[trigger] links@[j]).source@ == file_name@,
            forall|j: int|
                0 <= j < k ==> (#[trigger] links@[j]).target_path@ == spec_resolve_relative_path(
                    file_path@,
                    ghrefs[j],
                ),
            forall|j: int|
                0 <= j < k ==> (#[trigger] links@[j]).target@ == spec_note_id(
                    spec_resolve_relative_path(file_path@, ghrefs[j]),
                ),
            forall|j: int|
                0 <= j < k ==> (#[trigger] links@[j]).target_public == spec_vis_at(
                    target_sources@,
                    j,
                ),
        decreases hrefs.len() - k,
    {
        proof {
            assert(hrefs@[k as int]@ == ghrefs[k as int]);
        }
        let target_path = resolve_relative_path(file_path, hrefs[k].as_slice());
        let target = note_id_of(target_path.as_slice());
        let source = subvec(file_name, 0, file_name.len());
        proof {
            assert(source@ =~= file_name@);
        }
        links.push(
            Link { source, target, target_path, target_public: vis[k] },
        );
        k = k + 1;
    }
    Ok((h3, metadata, links))
}

/// Visibility leakage, at the pipeline's output: under a policy that
/// hides private targets, the markup `markdown_to_html` returns holds no
/// document href of a private target, however many times one is linked —
/// its document hrefs are exactly the extension-stripped hrefs of the
/// public targets, in order.  Holds whenever the prepared markup's
/// document anchors close their tags and the marker holds no tag-opening
/// byte.
pub proof fn lemma_transformed_html_no_leak(
    source: Seq<u8>,
    targets: Seq<Option<Vec<u8>>>,
    icon: Seq<u8>,
)
    requires
        closed_tags(spec_prepared_html(source)),
        forall|p: int| 0 <= p < icon.len() ==> icon[p] != 60u8,
    ensures
        doc_hrefs(spec_transformed_html(source, targets, false, icon)) == public_stripped(
            doc_hrefs(spec_prepared_html(source)),
            Seq::new(
                doc_hrefs(spec_prepared_html(source)).len(),
                |i: int| spec_vis_at(targets, i),
            ),
            false,
        ),
{
    let x = spec_prepared_html(source);
    let vis = Seq::new(doc_hrefs(x).len(), |i: int| spec_vis_at(targets, i));
    lemma_no_private_target_exposed(x, vis, icon);
}

} // verus!
