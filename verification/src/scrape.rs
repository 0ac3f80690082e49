use vstd::prelude::*;

use crate::dom::{
    append_node_text, node_attr, node_attr_exec, node_children, node_has_attr_val,
    node_has_attr_val_exec, node_has_class, node_has_class_exec, node_is_named,
    node_is_named_exec, node_text, parse_document, parsed_dom, text_of, HtmlNode,
};
use crate::error::ScrapeError;
use crate::paper::Paper;
use crate::parse::{parse_citation_count, parse_count_spec, parse_id_from_url, parse_id_spec};
use crate::strutil::{trim_exec, trimmed};

verus! {

broadcast use vstd::std_specs::vec::group_vec_axioms;

// A paper summary has two possible title layouts (a linked title, or loose
// text beside an optional label element) and one footer of action links; the
// link that carries the cluster identifier in its target is the citation
// link, and its text carries the count.

/// The first anchor element, in document order, among the strict descendants
/// of a node, whose parent is a title container (class `gs_rt`); `parent_rt`
/// says whether the node's own parent is one.
pub open spec fn title_anchor_in(n: HtmlNode, parent_rt: bool) -> Option<HtmlNode>
    decreases n,
{
    match n {
        HtmlNode::Element(e) => {
            if parent_rt && e.name@ == "a"@ {
                Some(n)
            } else {
                title_anchor_in_seq(e.children@, node_has_class(n, "gs_rt"@))
            }
        },
        _ => None,
    }
}

pub open spec fn title_anchor_in_seq(ns: Seq<HtmlNode>, parent_rt: bool) -> Option<HtmlNode>
    decreases ns,
{
    if ns.len() == 0 {
        None
    } else {
        match title_anchor_in(ns[0], parent_rt) {
            Some(a) => Some(a),
            None => title_anchor_in_seq(ns.drop_first(), parent_rt),
        }
    }
}

/// The label element that the unlinked-title layout discards.
pub open spec fn is_label_elem(n: HtmlNode) -> bool {
    node_is_named(n, "span"@)
}

/// The concatenated text of `ns` in order, skipping label elements.
pub open spec fn unlabeled_text(ns: Seq<HtmlNode>) -> Seq<char>
    decreases ns,
{
    if ns.len() == 0 {
        Seq::empty()
    } else {
        unlabeled_text(ns.drop_last()) + (if is_label_elem(ns.last()) {
            Seq::<char>::empty()
        } else {
            text_of(ns.last())
        })
    }
}

/// The concatenated unlabeled-children text of every title container in the
/// subtree, containers in document order.
pub open spec fn rt_pieces(n: HtmlNode) -> Seq<char>
    decreases n,
{
    match n {
        HtmlNode::Element(e) => {
            (if node_has_class(n, "gs_rt"@) {
                unlabeled_text(e.children@)
            } else {
                Seq::<char>::empty()
            }) + rt_pieces_seq(e.children@)
        },
        _ => Seq::empty(),
    }
}

pub open spec fn rt_pieces_seq(ns: Seq<HtmlNode>) -> Seq<char>
    decreases ns,
{
    if ns.len() == 0 {
        Seq::empty()
    } else {
        rt_pieces_seq(ns.drop_last()) + rt_pieces(ns.last())
    }
}

/// The title of one paper block: the text of its first linked title when one
/// exists, else the trimmed unlabeled text of its title containers; never an
/// error, an unrecoverable title is the empty string.
pub open spec fn title_of_block(n: HtmlNode) -> Seq<char> {
    match title_anchor_in_seq(node_children(n), node_has_class(n, "gs_rt"@)) {
        Some(a) => text_of(a),
        None => trimmed(rt_pieces_seq(node_children(n))),
    }
}

/// The first footer (class `gs_fl`) among the strict descendants, in
/// document order.
pub open spec fn footer_in(n: HtmlNode) -> Option<HtmlNode>
    decreases n,
{
    match n {
        HtmlNode::Element(e) => {
            if node_has_class(n, "gs_fl"@) {
                Some(n)
            } else {
                footer_in_seq(e.children@)
            }
        },
        _ => None,
    }
}

pub open spec fn footer_in_seq(ns: Seq<HtmlNode>) -> Option<HtmlNode>
    decreases ns,
{
    if ns.len() == 0 {
        None
    } else {
        match footer_in(ns[0]) {
            Some(f) => Some(f),
            None => footer_in_seq(ns.drop_first()),
        }
    }
}

/// The node carries a link target from which an identifier parses: the one
/// reliable mark of the citation link among the footer's actions.
pub open spec fn is_citation_link(n: HtmlNode) -> bool {
    match node_attr(n, "href"@) {
        Some(u) => parse_id_spec(u) is Ok,
        None => false,
    }
}

/// The identifier parsed from the node's link target; meaningful only when
/// `is_citation_link` holds.
pub open spec fn citation_link_id(n: HtmlNode) -> u64 {
    match node_attr(n, "href"@) {
        Some(u) => match parse_id_spec(u) {
            Ok(v) => v,
            Err(_) => 0,
        },
        None => 0,
    }
}

/// The first citation link of `ns`, in document order.
pub open spec fn citation_child_in(ns: Seq<HtmlNode>) -> Option<HtmlNode>
    decreases ns,
{
    if ns.len() == 0 {
        None
    } else if is_citation_link(ns[0]) {
        Some(ns[0])
    } else {
        citation_child_in(ns.drop_first())
    }
}

/// The identifier and citation count of one paper block: the first citation
/// link among the direct children of the block's first footer gives the
/// identifier from its link target and the count from its text.
pub open spec fn id_and_citation_of(n: HtmlNode) -> Result<(u64, u32), ScrapeError> {
    match footer_in_seq(node_children(n)) {
        None => Err(ScrapeError::MissingField),
        Some(f) => match citation_child_in(node_children(f)) {
            None => Err(ScrapeError::MissingField),
            Some(c) => match parse_count_spec(text_of(c)) {
                Ok(ct) => Ok((citation_link_id(c), ct)),
                Err(e) => Err(e),
            },
        },
    }
}

/// What one paper block yields: title, identifier and citation count, or
/// the error that aborts the page.
pub open spec fn paper_of_block(n: HtmlNode) -> Result<(Seq<char>, u64, u32), ScrapeError> {
    match id_and_citation_of(n) {
        Ok((id, c)) => Ok((title_of_block(n), id, c)),
        Err(e) => Err(e),
    }
}

/// Finds the first linked title at or below `n`.
#[verifier::loop_isolation(false)]
fn find_title_anchor<'a>(n: &'a HtmlNode, parent_rt: bool) -> (r: Option<&'a HtmlNode>)
    ensures
        match r {
            Some(a) => title_anchor_in(*n, parent_rt) == Some(*a),
            None => title_anchor_in(*n, parent_rt) is None,
        },
    decreases *n,
{
    match n {
        HtmlNode::Element(e) => {
            if parent_rt && node_is_named_exec(n, "a") {
                return Some(n);
            }
            let child_rt = node_has_class_exec(n, "gs_rt");
            proof {
                assert(e.children@.skip(0) =~= e.children@);
            }
            let len = e.children.len();
            let mut i: usize = 0;
            while i < len
                invariant
                    i <= len,
                    title_anchor_in_seq(e.children@, child_rt) == title_anchor_in_seq(
                        e.children@.skip(i as int),
                        child_rt,
                    ),
                decreases len - i,
            {
                proof {
                    assert(e.children@.skip(i as int).drop_first() =~= e.children@.skip(i + 1));
                    assert(e.children@.skip(i as int)[0] == e.children@[i as int]);
                }
                let found = find_title_anchor(&e.children[i], child_rt);
                if found.is_some() {
                    return found;
                }
                i += 1;
            }
            proof {
                assert(e.children@.skip(len as int) =~= Seq::<HtmlNode>::empty());
            }
            None
        },
        _ => None,
    }
}

/// Appends the unlabeled-children text of every title container at or below
/// `n` to `out`.
#[verifier::loop_isolation(false)]
fn append_rt_pieces(n: &HtmlNode, out: &mut String)
    ensures
        final(out)@ == old(out)@ + rt_pieces(*n),
    decreases *n,
{
    match n {
        HtmlNode::Element(e) => {
            let len = e.children.len();
            if node_has_class_exec(n, "gs_rt") {
                proof {
                    assert(e.children@.take(0) =~= Seq::<HtmlNode>::empty());
                }
                let mut i: usize = 0;
                while i < len
                    invariant
                        i <= len,
                        out@ == old(out)@ + unlabeled_text(e.children@.take(i as int)),
                    decreases len - i,
                {
                    proof {
                        assert(e.children@.take(i + 1).drop_last() =~= e.children@.take(i as int));
                        assert(e.children@.take(i + 1).last() == e.children@[i as int]);
                    }
                    if node_is_named_exec(&e.children[i], "span") {
                        proof {
                            assert(out@ + Seq::<char>::empty() =~= out@);
                        }
                    } else {
                        append_node_text(&e.children[i], out);
                    }
                    i += 1;
                }
                proof {
                    assert(e.children@.take(len as int) =~= e.children@);
                }
            } else {
                proof {
                    assert(old(out)@ + Seq::<char>::empty() =~= old(out)@);
                }
            }
            let ghost mid = out@;
            let ghost head = if node_has_class(*n, "gs_rt"@) {
                unlabeled_text(e.children@)
            } else {
                Seq::<char>::empty()
            };
            proof {
                assert(mid == old(out)@ + head);
                assert(e.children@.take(0) =~= Seq::<HtmlNode>::empty());
                assert(mid + Seq::<char>::empty() =~= mid);
            }
            let mut j: usize = 0;
            while j < len
                invariant
                    j <= len,
                    out@ == mid + rt_pieces_seq(e.children@.take(j as int)),
                decreases len - j,
            {
                proof {
                    assert(e.children@.take(j + 1).drop_last() =~= e.children@.take(j as int));
                    assert(e.children@.take(j + 1).last() == e.children@[j as int]);
                }
                append_rt_pieces(&e.children[j], out);
                j += 1;
            }
            proof {
                assert(e.children@.take(len as int) =~= e.children@);
                assert((old(out)@ + head) + rt_pieces_seq(e.children@) =~= old(out)@ + (head
                    + rt_pieces_seq(e.children@)));
            }
        },
        _ => {
            proof {
                assert(old(out)@ + Seq::<char>::empty() =~= old(out)@);
            }
        },
    }
}

/// Extracts the title of one paper block. Title extraction has no failure
/// path: a block with neither a linked title nor loose title text yields the
/// empty string.
#[verifier::loop_isolation(false)]
pub fn scrape_title(node: &HtmlNode) -> (r: String)
    ensures
        r@ == title_of_block(*node),
{
    let parent_rt = node_has_class_exec(node, "gs_rt");
    match node {
        HtmlNode::Element(e) => {
            proof {
                assert(e.children@.skip(0) =~= e.children@);
            }
            let len = e.children.len();
            let mut i: usize = 0;
            while i < len
                invariant
                    i <= len,
                    title_anchor_in_seq(e.children@, parent_rt) == title_anchor_in_seq(
                        e.children@.skip(i as int),
                        parent_rt,
                    ),
                decreases len - i,
            {
                proof {
                    assert(e.children@.skip(i as int).drop_first() =~= e.children@.skip(i + 1));
                    assert(e.children@.skip(i as int)[0] == e.children@[i as int]);
                }
                match find_title_anchor(&e.children[i], parent_rt) {
                    Some(a) => {
                        return node_text(a);
                    },
                    None => {},
                }
                i += 1;
            }
            proof {
                assert(e.children@.skip(len as int) =~= Seq::<HtmlNode>::empty());
                assert(e.children@.take(0) =~= Seq::<HtmlNode>::empty());
            }
            let mut out = String::new();
            let mut j: usize = 0;
            while j < len
                invariant
                    j <= len,
                    out@ == rt_pieces_seq(e.children@.take(j as int)),
                decreases len - j,
            {
                proof {
                    assert(e.children@.take(j + 1).drop_last() =~= e.children@.take(j as int));
                    assert(e.children@.take(j + 1).last() == e.children@[j as int]);
                    assert(Seq::<char>::empty() + rt_pieces_seq(e.children@.take(j as int))
                        =~= rt_pieces_seq(e.children@.take(j as int)));
                }
                append_rt_pieces(&e.children[j], &mut out);
                j += 1;
            }
            proof {
                assert(e.children@.take(len as int) =~= e.children@);
            }
            trim_exec(out.as_str())
        },
        _ => {
            proof {
                assert(node_children(*node) =~= Seq::<HtmlNode>::empty());
                assert(rt_pieces_seq(Seq::<HtmlNode>::empty()) =~= Seq::<char>::empty());
                assert(trimmed(Seq::<char>::empty()) =~= Seq::<char>::empty());
            }
            String::new()
        },
    }
}

/// Finds the first footer at or below `n`.
#[verifier::loop_isolation(false)]
fn find_footer<'a>(n: &'a HtmlNode) -> (r: Option<&'a HtmlNode>)
    ensures
        match r {
            Some(f) => footer_in(*n) == Some(*f),
            None => footer_in(*n) is None,
        },
    decreases *n,
{
    match n {
        HtmlNode::Element(e) => {
            if node_has_class_exec(n, "gs_fl") {
                return Some(n);
            }
            proof {
                assert(e.children@.skip(0) =~= e.children@);
            }
            let len = e.children.len();
            let mut i: usize = 0;
            while i < len
                invariant
                    i <= len,
                    footer_in_seq(e.children@) == footer_in_seq(e.children@.skip(i as int)),
                decreases len - i,
            {
                proof {
                    assert(e.children@.skip(i as int).drop_first() =~= e.children@.skip(i + 1));
                    assert(e.children@.skip(i as int)[0] == e.children@[i as int]);
                }
                let found = find_footer(&e.children[i]);
                if found.is_some() {
                    return found;
                }
                i += 1;
            }
            proof {
                assert(e.children@.skip(len as int) =~= Seq::<HtmlNode>::empty());
            }
            None
        },
        _ => None,
    }
}

/// Scrapes one paper block's footer for its cluster identifier and citation
/// count: the first direct child of the footer whose link target yields an
/// identifier is the citation link; its text gives the count.
#[verifier::loop_isolation(false)]
pub fn scrape_id_and_citation(node: &HtmlNode) -> (r: Result<(u64, u32), ScrapeError>)
    ensures
        r == id_and_citation_of(*node),
{
    let footer = match node {
        HtmlNode::Element(e) => {
            proof {
                assert(e.children@.skip(0) =~= e.children@);
            }
            let len = e.children.len();
            let mut i: usize = 0;
            let mut found: Option<&HtmlNode> = None;
            while i < len && found.is_none()
                invariant
                    i <= len,
                    found is None ==> footer_in_seq(e.children@) == footer_in_seq(
                        e.children@.skip(i as int),
                    ),
                    found matches Some(f) ==> footer_in_seq(e.children@) == Some(*f),
                decreases len - i,
            {
                proof {
                    assert(e.children@.skip(i as int).drop_first() =~= e.children@.skip(i + 1));
                    assert(e.children@.skip(i as int)[0] == e.children@[i as int]);
                }
                found = find_footer(&e.children[i]);
                i += 1;
            }
            proof {
                if found is None {
                    assert(e.children@.skip(len as int) =~= Seq::<HtmlNode>::empty());
                }
            }
            found
        },
        _ => None,
    };
    let f = match footer {
        Some(f) => f,
        None => {
            return Err(ScrapeError::MissingField);
        },
    };
    match f {
        HtmlNode::Element(fe) => {
            proof {
                assert(fe.children@.skip(0) =~= fe.children@);
            }
            let len = fe.children.len();
            let mut i: usize = 0;
            while i < len
                invariant
                    i <= len,
                    citation_child_in(fe.children@) == citation_child_in(
                        fe.children@.skip(i as int),
                    ),
                decreases len - i,
            {
                proof {
                    assert(fe.children@.skip(i as int).drop_first() =~= fe.children@.skip(i + 1));
                    assert(fe.children@.skip(i as int)[0] == fe.children@[i as int]);
                }
                let c = &fe.children[i];
                match node_attr_exec(c, "href") {
                    Some(u) => {
                        match parse_id_from_url(u.as_str()) {
                            Ok(id) => {
                                proof {
                                    assert(is_citation_link(*c));
                                    assert(citation_link_id(*c) == id);
                                }
                                let txt = node_text(c);
                                match parse_citation_count(txt.as_str()) {
                                    Ok(ct) => {
                                        return Ok((id, ct));
                                    },
                                    Err(e) => {
                                        return Err(e);
                                    },
                                }
                            },
                            Err(_) => {
                                proof {
                                    assert(!is_citation_link(*c));
                                }
                            },
                        }
                    },
                    None => {
                        proof {
                            assert(!is_citation_link(*c));
                        }
                    },
                }
                i += 1;
            }
            proof {
                assert(fe.children@.skip(len as int) =~= Seq::<HtmlNode>::empty());
            }
            Err(ScrapeError::MissingField)
        },
        _ => Err(ScrapeError::MissingField),
    }
}

/// A record extracted in a search or citer context: `citation_count` set,
/// `citers` unset.
pub open spec fn is_search_paper(p: Paper, t: (Seq<char>, u64, u32)) -> bool {
    &&& p.title@ == t.0
    &&& p.id == t.1
    &&& p.citation_count == Some(t.2)
    &&& p.citers is None
}

/// Reduces one paper-summary block to a record; failure of the identifier or
/// count extraction is fatal for the block, a blank title is not.
pub fn scrape_paper_one(node: &HtmlNode) -> (r: Result<Paper, ScrapeError>)
    ensures
        match r {
            Ok(p) => paper_of_block(*node) matches Ok(t) && is_search_paper(p, t),
            Err(e) => paper_of_block(*node) == Err::<(Seq<char>, u64, u32), ScrapeError>(e),
        },
{
    let title = scrape_title(node);
    match scrape_id_and_citation(node) {
        Ok((id, c)) => Ok(Paper { title, id, citation_count: Some(c), citers: None }),
        Err(e) => Err(e),
    }
}

/// The block list contributed by the node itself: the node, when a strict
/// ancestor is the results container (`under`) and the node is a paper
/// summary (class `gs_ri`).
pub open spec fn self_block(n: HtmlNode, under: bool) -> Seq<HtmlNode> {
    if under && node_has_class(n, "gs_ri"@) {
        seq![n]
    } else {
        Seq::empty()
    }
}

/// Every paper-summary block of the subtree, in document order: the elements
/// with class `gs_ri` below an element with id `gs_res_ccl_mid`.
pub open spec fn paper_blocks_in(n: HtmlNode, under: bool) -> Seq<HtmlNode>
    decreases n,
{
    match n {
        HtmlNode::Element(e) => self_block(n, under) + paper_blocks_in_seq(
            e.children@,
            under || node_has_attr_val(n, "id"@, "gs_res_ccl_mid"@),
        ),
        _ => Seq::empty(),
    }
}

pub open spec fn paper_blocks_in_seq(ns: Seq<HtmlNode>, under: bool) -> Seq<HtmlNode>
    decreases ns,
{
    if ns.len() == 0 {
        Seq::empty()
    } else {
        paper_blocks_in_seq(ns.drop_last(), under) + paper_blocks_in(ns.last(), under)
    }
}

/// The records of a list of paper blocks, in order; the first failing block
/// aborts the whole list with its error.
pub open spec fn papers_of_blocks(bs: Seq<HtmlNode>) -> Result<
    Seq<(Seq<char>, u64, u32)>,
    ScrapeError,
>
    decreases bs,
{
    if bs.len() == 0 {
        Ok(Seq::empty())
    } else {
        match papers_of_blocks(bs.drop_last()) {
            Err(e) => Err(e),
            Ok(ts) => match paper_of_block(bs.last()) {
                Ok(t) => Ok(ts.push(t)),
                Err(e) => Err(e),
            },
        }
    }
}

/// The law of whole-page extraction: on a page whose every block extracts,
/// there is exactly one record per paper block, and the record at each rank
/// is the record of the block at that rank — document order is preserved.
pub proof fn lemma_records_in_document_order(bs: Seq<HtmlNode>)
    ensures
        papers_of_blocks(bs) matches Ok(ts) ==> {
            &&& ts.len() == bs.len()
            &&& forall|i: int|
                0 <= i < bs.len() ==> paper_of_block(bs[i]) == Ok::<
                    (Seq<char>, u64, u32),
                    ScrapeError,
                >(ts[i])
        },
    decreases bs.len(),
{
    if bs.len() > 0 {
        lemma_records_in_document_order(bs.drop_last());
    }
}

/// `papers` lists exactly the records `ts`, in the same order.
pub open spec fn search_results_match(ts: Seq<(Seq<char>, u64, u32)>, papers: Seq<Paper>) -> bool {
    &&& papers.len() == ts.len()
    &&& forall|i: int| 0 <= i < ts.len() ==> is_search_paper(#[trigger] papers[i], ts[i])
}

/// Splitting a block list splits its records at the first error.
proof fn lemma_papers_of_blocks_concat(a: Seq<HtmlNode>, b: Seq<HtmlNode>)
    ensures
        papers_of_blocks(a + b) == (match papers_of_blocks(a) {
            Err(e) => Err(e),
            Ok(x) => match papers_of_blocks(b) {
                Err(e) => Err(e),
                Ok(y) => Ok(x + y),
            },
        }),
    decreases b.len(),
{
    if b.len() == 0 {
        assert(a + b =~= a);
        match papers_of_blocks(a) {
            Ok(x) => {
                assert(x + Seq::<(Seq<char>, u64, u32)>::empty() =~= x);
            },
            Err(_) => {},
        }
    } else {
        lemma_papers_of_blocks_concat(a, b.drop_last());
        assert((a + b).drop_last() =~= a + b.drop_last());
        assert((a + b).last() == b.last());
        match papers_of_blocks(a) {
            Ok(x) => {
                match papers_of_blocks(b.drop_last()) {
                    Ok(y) => {
                        match paper_of_block(b.last()) {
                            Ok(t) => {
                                assert((x + y).push(t) =~= x + y.push(t));
                            },
                            Err(_) => {},
                        }
                    },
                    Err(_) => {},
                }
            },
            Err(_) => {},
        }
    }
}

/// Block collection distributes over list concatenation.
proof fn lemma_paper_blocks_in_seq_concat(a: Seq<HtmlNode>, b: Seq<HtmlNode>, under: bool)
    ensures
        paper_blocks_in_seq(a + b, under) == paper_blocks_in_seq(a, under) + paper_blocks_in_seq(
            b,
            under,
        ),
    decreases b.len(),
{
    if b.len() == 0 {
        assert(a + b =~= a);
        assert(paper_blocks_in_seq(a, under) + paper_blocks_in_seq(b, under) =~= paper_blocks_in_seq(
            a,
            under,
        ));
    } else {
        lemma_paper_blocks_in_seq_concat(a, b.drop_last(), under);
        assert((a + b).drop_last() =~= a + b.drop_last());
        assert((a + b).last() == b.last());
        assert(paper_blocks_in_seq(a, under) + paper_blocks_in_seq(b.drop_last(), under)
            + paper_blocks_in(b.last(), under) =~= paper_blocks_in_seq(a, under) + (
        paper_blocks_in_seq(b.drop_last(), under) + paper_blocks_in(b.last(), under)));
    }
}

/// Walks the subtree in document order, appending the record of every paper
/// block to `out`; the first failing block aborts with its error.
#[verifier::loop_isolation(false)]
#[verifier::rlimit(60)]
fn scrape_blocks_into(n: &HtmlNode, under: bool, out: &mut Vec<Paper>) -> (r: Result<
    (),
    ScrapeError,
>)
    ensures
        match r {
            Ok(_) => papers_of_blocks(paper_blocks_in(*n, under)) matches Ok(ts) && old(out)@.len()
                <= final(out)@.len() && final(out)@.take(old(out)@.len() as int) == old(out)@
                && search_results_match(ts, final(out)@.skip(old(out)@.len() as int)),
            Err(e) => papers_of_blocks(paper_blocks_in(*n, under)) == Err::<
                Seq<(Seq<char>, u64, u32)>,
                ScrapeError,
            >(e),
        },
    decreases *n,
{
    match n {
        HtmlNode::Element(e) => {
            let is_block = under && node_has_class_exec(n, "gs_ri");
            proof {
                assert(papers_of_blocks(Seq::<HtmlNode>::empty()) == Ok::<
                    Seq<(Seq<char>, u64, u32)>,
                    ScrapeError,
                >(Seq::empty()));
            }
            if is_block {
                match scrape_paper_one(n) {
                    Ok(p) => {
                        let ghost t = paper_of_block(*n)->Ok_0;
                        proof {
                            assert(is_search_paper(p, t));
                        }
                        out.push(p);
                        proof {
                            assert(self_block(*n, under) =~= seq![*n]);
                            assert(seq![*n].drop_last() =~= Seq::<HtmlNode>::empty());
                            assert(seq![*n].last() == *n);
                            assert(Seq::<(Seq<char>, u64, u32)>::empty().push(t) =~= seq![t]);
                            assert(papers_of_blocks(seq![*n]) == Ok::<
                                Seq<(Seq<char>, u64, u32)>,
                                ScrapeError,
                            >(seq![t]));
                            assert(out@ == old(out)@.push(p));
                            assert(out@.take(old(out)@.len() as int) =~= old(out)@);
                            assert(out@.skip(old(out)@.len() as int) =~= seq![p]);
                            assert(search_results_match(seq![t], seq![p]));
                        }
                    },
                    Err(er) => {
                        proof {
                            assert(self_block(*n, under) =~= seq![*n]);
                            assert(seq![*n].drop_last() =~= Seq::<HtmlNode>::empty());
                            assert(seq![*n].last() == *n);
                            assert(papers_of_blocks(seq![*n]) == Err::<
                                Seq<(Seq<char>, u64, u32)>,
                                ScrapeError,
                            >(er));
                            lemma_papers_of_blocks_concat(
                                self_block(*n, under),
                                paper_blocks_in_seq(
                                    e.children@,
                                    under || node_has_attr_val(*n, "id"@, "gs_res_ccl_mid"@),
                                ),
                            );
                        }
                        return Err(er);
                    },
                }
            } else {
                proof {
                    assert(self_block(*n, under) =~= Seq::<HtmlNode>::empty());
                    assert(out@.take(old(out)@.len() as int) =~= old(out)@);
                    assert(out@.skip(old(out)@.len() as int) =~= Seq::<Paper>::empty());
                }
            }
            let under2 = under || node_has_attr_val_exec(n, "id", "gs_res_ccl_mid");
            proof {
                assert(e.children@.take(0) =~= Seq::<HtmlNode>::empty());
                assert(self_block(*n, under) + Seq::<HtmlNode>::empty() =~= self_block(*n, under));
            }
            let len = e.children.len();
            let mut i: usize = 0;
            while i < len
                invariant
                    i <= len,
                    under2 == (under || node_has_attr_val(*n, "id"@, "gs_res_ccl_mid"@)),
                    papers_of_blocks(
                        self_block(*n, under) + paper_blocks_in_seq(
                            e.children@.take(i as int),
                            under2,
                        ),
                    ) matches Ok(ts) && old(out)@.len() <= out@.len() && out@.take(
                        old(out)@.len() as int,
                    ) == old(out)@ && search_results_match(ts, out@.skip(old(out)@.len() as int)),
                decreases len - i,
            {
                proof {
                    assert(e.children@.take(i + 1).drop_last() =~= e.children@.take(i as int));
                    assert(e.children@.take(i + 1).last() == e.children@[i as int]);
                }
                let ghost mid = out@;
                let res = scrape_blocks_into(&e.children[i], under2, out);
                proof {
                    lemma_papers_of_blocks_concat(
                        self_block(*n, under) + paper_blocks_in_seq(
                            e.children@.take(i as int),
                            under2,
                        ),
                        paper_blocks_in(e.children@[i as int], under2),
                    );
                    assert((self_block(*n, under) + paper_blocks_in_seq(
                        e.children@.take(i as int),
                        under2,
                    )) + paper_blocks_in(e.children@[i as int], under2) =~= self_block(*n, under)
                        + paper_blocks_in_seq(e.children@.take(i + 1), under2));
                }
                match res {
                    Ok(_) => {
                        proof {
                            let old_len = old(out)@.len() as int;
                            let mid_len = mid.len() as int;
                            let ts_prev = papers_of_blocks(
                                self_block(*n, under) + paper_blocks_in_seq(
                                    e.children@.take(i as int),
                                    under2,
                                ),
                            )->Ok_0;
                            let ts_child = papers_of_blocks(
                                paper_blocks_in(e.children@[i as int], under2),
                            )->Ok_0;
                            assert(out@.take(mid_len) == mid);
                            assert(out@.take(old_len) =~= out@.take(mid_len).take(old_len));
                            assert(mid_len == old_len + ts_prev.len());
                            assert forall|k: int|
                                0 <= k < ts_prev.len() + ts_child.len() implies is_search_paper(
                                #[trigger] out@.skip(old_len)[k],
                                (ts_prev + ts_child)[k],
                            ) by {
                                if k < ts_prev.len() {
                                    assert(out@.take(mid_len)[old_len + k] == mid[old_len + k]);
                                    assert(out@.skip(old_len)[k] == out@[old_len + k]);
                                    assert(mid.skip(old_len)[k] == mid[old_len + k]);
                                    assert(is_search_paper(mid.skip(old_len)[k], ts_prev[k]));
                                } else {
                                    assert(out@.skip(old_len)[k] == out@[old_len + k]);
                                    assert(out@.skip(mid_len)[k - ts_prev.len()] == out@[mid_len + (
                                    k - ts_prev.len())]);
                                    assert(is_search_paper(
                                        out@.skip(mid_len)[k - ts_prev.len()],
                                        ts_child[k - ts_prev.len()],
                                    ));
                                }
                            }
                        }
                    },
                    Err(er) => {
                        proof {
                            lemma_paper_blocks_in_seq_concat(
                                e.children@.take(i + 1),
                                e.children@.skip(i + 1),
                                under2,
                            );
                            assert(e.children@.take(i + 1) + e.children@.skip(i + 1)
                                =~= e.children@);
                            lemma_papers_of_blocks_concat(
                                self_block(*n, under) + paper_blocks_in_seq(
                                    e.children@.take(i + 1),
                                    under2,
                                ),
                                paper_blocks_in_seq(e.children@.skip(i + 1), under2),
                            );
                            assert((self_block(*n, under) + paper_blocks_in_seq(
                                e.children@.take(i + 1),
                                under2,
                            )) + paper_blocks_in_seq(e.children@.skip(i + 1), under2)
                                =~= self_block(*n, under) + paper_blocks_in_seq(
                                e.children@,
                                under2,
                            ));
                        }
                        return Err(er);
                    },
                }
                i += 1;
            }
            proof {
                assert(e.children@.take(len as int) =~= e.children@);
            }
            Ok(())
        },
        _ => {
            proof {
                assert(paper_blocks_in(*n, under) =~= Seq::<HtmlNode>::empty());
                assert(papers_of_blocks(Seq::<HtmlNode>::empty()) == Ok::<
                    Seq<(Seq<char>, u64, u32)>,
                    ScrapeError,
                >(Seq::empty()));
                assert(out@.take(old(out)@.len() as int) =~= old(out)@);
                assert(out@.skip(old(out)@.len() as int) =~= Seq::<Paper>::empty());
            }
            Ok(())
        },
    }
}

/// The first node in document order that is an anchor element or a text
/// node, whose parent is an `h2` element whose own parent carries id
/// `gs_rt_hdr`: the node naming the target paper of a citation page.
/// `parent_ok` says whether the node's parent is such an `h2`; `parent_is_hdr`
/// whether the node's parent carries the header id.
pub open spec fn header_title_in(n: HtmlNode, parent_ok: bool, parent_is_hdr: bool) -> Option<
    HtmlNode,
>
    decreases n,
{
    match n {
        HtmlNode::Element(e) => {
            if parent_ok && e.name@ == "a"@ {
                Some(n)
            } else {
                header_title_in_seq(
                    e.children@,
                    parent_is_hdr && e.name@ == "h2"@,
                    node_has_attr_val(n, "id"@, "gs_rt_hdr"@),
                )
            }
        },
        HtmlNode::Text(_) => if parent_ok {
            Some(n)
        } else {
            None
        },
        HtmlNode::Comment(_) => None,
    }
}

pub open spec fn header_title_in_seq(
    ns: Seq<HtmlNode>,
    parent_ok: bool,
    parent_is_hdr: bool,
) -> Option<HtmlNode>
    decreases ns,
{
    if ns.len() == 0 {
        None
    } else {
        match header_title_in(ns[0], parent_ok, parent_is_hdr) {
            Some(t) => Some(t),
            None => header_title_in_seq(ns.drop_first(), parent_ok, parent_is_hdr),
        }
    }
}

/// The title and identifier of the paper the citation-page header names:
/// the text of the first header title node, and the identifier parsed from
/// its link target.
pub open spec fn target_paper_of(root: HtmlNode) -> Result<(Seq<char>, u64), ScrapeError> {
    match header_title_in(root, false, false) {
        None => Err(ScrapeError::MissingField),
        Some(t) => match node_attr(t, "href"@) {
            None => Err(ScrapeError::MissingField),
            Some(u) => match parse_id_spec(u) {
                Ok(id) => Ok((text_of(t), id)),
                Err(e) => Err(e),
            },
        },
    }
}

/// Finds the header title node at or below `n`.
#[verifier::loop_isolation(false)]
fn find_header_title<'a>(n: &'a HtmlNode, parent_ok: bool, parent_is_hdr: bool) -> (r: Option<
    &'a HtmlNode,
>)
    ensures
        match r {
            Some(t) => header_title_in(*n, parent_ok, parent_is_hdr) == Some(*t),
            None => header_title_in(*n, parent_ok, parent_is_hdr) is None,
        },
    decreases *n,
{
    match n {
        HtmlNode::Element(e) => {
            if parent_ok && node_is_named_exec(n, "a") {
                return Some(n);
            }
            let child_ok = parent_is_hdr && node_is_named_exec(n, "h2");
            let child_hdr = node_has_attr_val_exec(n, "id", "gs_rt_hdr");
            proof {
                assert(e.children@.skip(0) =~= e.children@);
            }
            let len = e.children.len();
            let mut i: usize = 0;
            while i < len
                invariant
                    i <= len,
                    header_title_in_seq(e.children@, child_ok, child_hdr) == header_title_in_seq(
                        e.children@.skip(i as int),
                        child_ok,
                        child_hdr,
                    ),
                decreases len - i,
            {
                proof {
                    assert(e.children@.skip(i as int).drop_first() =~= e.children@.skip(i + 1));
                    assert(e.children@.skip(i as int)[0] == e.children@[i as int]);
                }
                let found = find_header_title(&e.children[i], child_ok, child_hdr);
                if found.is_some() {
                    return found;
                }
                i += 1;
            }
            proof {
                assert(e.children@.skip(len as int) =~= Seq::<HtmlNode>::empty());
            }
            None
        },
        HtmlNode::Text(_) => {
            if parent_ok {
                Some(n)
            } else {
                None
            }
        },
        HtmlNode::Comment(_) => None,
    }
}

/// A parsed search-results page: a list of paper summaries.
pub struct SearchDocument {
    pub root: HtmlNode,
}

impl SearchDocument {
    /// Wraps an already parsed document tree.
    pub fn new(document: HtmlNode) -> (r: Self)
        ensures
            r.root == document,
    {
        SearchDocument { root: document }
    }

    /// Parses raw HTML text into a document; the parse itself never fails,
    /// malformed markup degrades rather than erroring.
    pub fn from_html(html: &str) -> (r: Self)
        ensures
            r.root == parsed_dom(html@),
    {
        SearchDocument { root: parse_document(html) }
    }

    /// The paper-summary blocks of the page, in document order.
    pub open spec fn blocks(&self) -> Seq<HtmlNode> {
        paper_blocks_in(self.root, false)
    }

    /// Extracts every paper summary of the page, in rank order, each with
    /// `citation_count` set and `citers` unset; the first unextractable
    /// block aborts the whole call with its error.
    pub fn scrape_papers(&self) -> (r: Result<Vec<Paper>, ScrapeError>)
        ensures
            match r {
                Ok(papers) => papers_of_blocks(self.blocks()) matches Ok(ts)
                    && search_results_match(ts, papers@),
                Err(e) => papers_of_blocks(self.blocks()) == Err::<
                    Seq<(Seq<char>, u64, u32)>,
                    ScrapeError,
                >(e),
            },
    {
        let mut papers: Vec<Paper> = Vec::new();
        match scrape_blocks_into(&self.root, false, &mut papers) {
            Ok(_) => {
                proof {
                    assert(papers@.skip(0) =~= papers@);
                }
                Ok(papers)
            },
            Err(e) => Err(e),
        }
    }
}

/// A parsed citation page: the citing papers as a search-results list, plus
/// a header naming the one target paper whose citers are listed.
pub struct CitationDocument {
    pub search: SearchDocument,
}

impl CitationDocument {
    /// Wraps an already parsed document tree.
    pub fn new(document: HtmlNode) -> (r: Self)
        ensures
            r.search.root == document,
    {
        CitationDocument { search: SearchDocument::new(document) }
    }

    /// Parses raw HTML text into a citation page.
    pub fn from_html(html: &str) -> (r: Self)
        ensures
            r.search.root == parsed_dom(html@),
    {
        CitationDocument { search: SearchDocument::from_html(html) }
    }

    /// The citing papers of the page, in citation order: a citation page is
    /// also a list of paper summaries.
    pub fn scrape_papers(&self) -> (r: Result<Vec<Paper>, ScrapeError>)
        ensures
            match r {
                Ok(papers) => papers_of_blocks(self.search.blocks()) matches Ok(ts)
                    && search_results_match(ts, papers@),
                Err(e) => papers_of_blocks(self.search.blocks()) == Err::<
                    Seq<(Seq<char>, u64, u32)>,
                    ScrapeError,
                >(e),
            },
    {
        self.search.scrape_papers()
    }

    /// Extracts the paper the page's header names: its title and identifier,
    /// with `citation_count` and `citers` both unset (the header carries no
    /// "cited by" link of its own).
    pub fn scrape_target_paper(&self) -> (r: Result<Paper, ScrapeError>)
        ensures
            match r {
                Ok(p) => target_paper_of(self.search.root) matches Ok(t) && p.title@ == t.0
                    && p.id == t.1 && p.citation_count is None && p.citers is None,
                Err(e) => target_paper_of(self.search.root) == Err::<(Seq<char>, u64), ScrapeError>(
                    e,
                ),
            },
    {
        match find_header_title(&self.search.root, false, false) {
            None => Err(ScrapeError::MissingField),
            Some(t) => {
                let title = node_text(t);
                match node_attr_exec(t, "href") {
                    None => Err(ScrapeError::MissingField),
                    Some(u) => match parse_id_from_url(u.as_str()) {
                        Ok(id) => Ok(
                            Paper { title, id, citation_count: None, citers: None },
                        ),
                        Err(e) => Err(e),
                    },
                }
            },
        }
    }

    /// Extracts the target paper together with the papers citing it: the
    /// header's title and identifier, and `citers` set to exactly the citing
    /// papers that `scrape_papers` yields; either extraction's failure is
    /// the call's failure.
    pub fn scrape_target_paper_with_citers(&self) -> (r: Result<Paper, ScrapeError>)
        ensures
            match r {
                Ok(p) => {
                    &&& target_paper_of(self.search.root) matches Ok(t)
                    &&& papers_of_blocks(self.search.blocks()) matches Ok(ts)
                    &&& p.title@ == t.0
                    &&& p.id == t.1
                    &&& p.citation_count is None
                    &&& p.citers matches Some(cs)
                    &&& search_results_match(ts, cs@)
                },
                Err(e) => target_paper_of(self.search.root) == Err::<(Seq<char>, u64), ScrapeError>(
                    e,
                ) || (target_paper_of(self.search.root) is Ok && papers_of_blocks(
                    self.search.blocks(),
                ) == Err::<Seq<(Seq<char>, u64, u32)>, ScrapeError>(e)),
            },
    {
        match self.scrape_target_paper() {
            Err(e) => Err(e),
            Ok(target) => match self.search.scrape_papers() {
                Err(e) => Err(e),
                Ok(citers) => Ok(
                    Paper {
                        title: target.title,
                        id: target.id,
                        citation_count: None,
                        citers: Some(citers),
                    },
                ),
            },
        }
    }
}

} // verus!
