use scholar::dom::{Element, HtmlNode};
use scholar::error::ScrapeError;
use scholar::paper::Paper;
use scholar::scrape::{scrape_id_and_citation, scrape_title, CitationDocument, SearchDocument};

fn linked_block(title: &str, id: u64, count: u32) -> String {
    format!(
        "<div class='gs_ri'><h3 class='gs_rt'><a href='http://example.org/{id}.pdf'>{title}</a></h3><div class='gs_fl'><a href='/scholar?q=related:{id}'>Related articles</a><a href='/scholar?cites={id}'>Cited by {count}</a><a href='/scholar?cluster={id}'>All 3 versions</a></div></div>"
    )
}

fn unlinked_block(title: &str, id: u64, count: u32) -> String {
    format!(
        "<div class='gs_ri'><h3 class='gs_rt'><span>[BOOK]</span> {title}</h3><div class='gs_fl'><a href='/scholar?q=related:{id}'>Related articles</a><a href='/scholar?cites={id}'>Cited by {count}</a></div></div>"
    )
}

fn search_fixture() -> String {
    let mut blocks = String::new();
    blocks.push_str(&linked_block(
        "Quantum field theory and critical phenomena",
        16499695044466828447,
        4821,
    ));
    blocks.push_str(&unlinked_block("Quantum theory of solids", 8552492368061991976, 4190));
    blocks.push_str(&linked_block(
        "Significance of electromagnetic potentials in the quantum theory",
        5545735591029960915,
        6961,
    ));
    for k in 0..7u32 {
        blocks.push_str(&linked_block(
            &format!("Quantum paper {k}"),
            1000 + k as u64,
            10 + k,
        ));
    }
    format!("<html><body><div id='gs_res_ccl_mid'>{blocks}</div></body></html>")
}

fn citation_fixture() -> String {
    let header = "<div id='gs_rt_hdr'><h2><a href='/scholar?cluster=5545735591029960915'>Significance of electromagnetic potentials in the quantum theory</a></h2></div>";
    let mut blocks = String::new();
    blocks.push_str(&linked_block(
        "Quantal phase factors accompanying adiabatic changes",
        15570691018430890829,
        7813,
    ));
    blocks.push_str(&linked_block(
        "Multiferroics: a magnetic twist for ferroelectricity",
        9328505180409005573,
        3232,
    ));
    blocks.push_str(&linked_block("Quantum field theory", 14398189842493937255, 2911));
    for k in 0..7u32 {
        blocks.push_str(&linked_block(&format!("Citing paper {k}"), 2000 + k as u64, 20 + k));
    }
    format!("<html><body>{header}<div id='gs_res_ccl_mid'>{blocks}</div></body></html>")
}

fn assert_search_record(p: &Paper, title: &str, id: u64, count: u32) {
    assert_eq!(p.title, title);
    assert_eq!(p.id, id);
    assert_eq!(p.citation_count, Some(count));
    assert!(p.citers.is_none());
}

#[test]
fn search_document_scrape_test() {
    let doc = SearchDocument::from_html(&search_fixture());
    let papers = doc.scrape_papers().unwrap();

    assert_eq!(papers.len(), 10);
    assert_search_record(
        &papers[0],
        "Quantum field theory and critical phenomena",
        16499695044466828447,
        4821,
    );
    assert_search_record(&papers[1], "Quantum theory of solids", 8552492368061991976, 4190);
    assert_search_record(
        &papers[2],
        "Significance of electromagnetic potentials in the quantum theory",
        5545735591029960915,
        6961,
    );
    for p in &papers {
        assert!(p.citation_count.is_some());
        assert!(p.citers.is_none());
    }
}

#[test]
fn citation_document_scrape_test() {
    let doc = CitationDocument::from_html(&citation_fixture());

    let target_paper = doc.scrape_target_paper().unwrap();
    assert_eq!(
        target_paper.title,
        "Significance of electromagnetic potentials in the quantum theory"
    );
    assert_eq!(target_paper.id, 5545735591029960915);
    assert!(target_paper.citation_count.is_none());
    assert!(target_paper.citers.is_none());

    let citer_papers = doc.scrape_papers().unwrap();
    assert_eq!(citer_papers.len(), 10);
    assert_search_record(
        &citer_papers[0],
        "Quantal phase factors accompanying adiabatic changes",
        15570691018430890829,
        7813,
    );
    assert_search_record(
        &citer_papers[1],
        "Multiferroics: a magnetic twist for ferroelectricity",
        9328505180409005573,
        3232,
    );
    assert_search_record(&citer_papers[2], "Quantum field theory", 14398189842493937255, 2911);
}

#[test]
fn target_paper_with_citers_composes_both_scrapes() {
    let doc = CitationDocument::from_html(&citation_fixture());

    let target = doc.scrape_target_paper().unwrap();
    let citers = doc.scrape_papers().unwrap();
    let with_citers = doc.scrape_target_paper_with_citers().unwrap();

    assert_eq!(with_citers.title, target.title);
    assert_eq!(with_citers.id, target.id);
    assert!(with_citers.citation_count.is_none());
    let listed = with_citers.citers.unwrap();
    assert_eq!(listed.len(), citers.len());
    for (a, b) in listed.iter().zip(citers.iter()) {
        assert_eq!(a.title, b.title);
        assert_eq!(a.id, b.id);
        assert_eq!(a.citation_count, b.citation_count);
        assert!(a.citers.is_none());
        assert!(b.citers.is_none());
    }
}

fn text(s: &str) -> HtmlNode {
    HtmlNode::Text(s.to_string())
}

fn elem(name: &str, attrs: &[(&str, &str)], children: Vec<HtmlNode>) -> HtmlNode {
    HtmlNode::Element(Element {
        name: name.to_string(),
        attrs: attrs.iter().map(|(k, v)| (k.to_string(), v.to_string())).collect(),
        children,
    })
}

#[test]
fn title_extraction_prefers_linked_title() {
    let block = elem(
        "div",
        &[("class", "gs_ri")],
        vec![elem(
            "h3",
            &[("class", "gs_rt")],
            vec![
                elem("span", &[], vec![text("[PDF]")]),
                elem("a", &[("href", "http://example.org/p.pdf")], vec![text("The linked title")]),
            ],
        )],
    );
    assert_eq!(scrape_title(&block), "The linked title");
}

#[test]
fn title_extraction_falls_back_to_unlabeled_text() {
    let block = elem(
        "div",
        &[("class", "gs_ri")],
        vec![elem(
            "h3",
            &[("class", "gs_rt")],
            vec![elem("span", &[], vec![text("[BOOK]")]), text("  The loose title  ")],
        )],
    );
    assert_eq!(scrape_title(&block), "The loose title");
}

#[test]
fn title_extraction_yields_empty_string_when_nothing_matches() {
    let block = elem("div", &[("class", "gs_ri")], vec![elem("p", &[], vec![text("no title here")])]);
    assert_eq!(scrape_title(&block), "");
}

#[test]
fn missing_footer_is_missing_field() {
    let block = elem("div", &[("class", "gs_ri")], vec![]);
    assert_eq!(scrape_id_and_citation(&block).unwrap_err(), ScrapeError::MissingField);

    let html = "<html><body><div id='gs_res_ccl_mid'><div class='gs_ri'><h3 class='gs_rt'><a href='http://x'>T</a></h3></div></div></body></html>";
    let doc = SearchDocument::from_html(html);
    assert_eq!(doc.scrape_papers().unwrap_err(), ScrapeError::MissingField);
}

#[test]
fn footer_without_citation_link_is_missing_field() {
    let html = "<html><body><div id='gs_res_ccl_mid'><div class='gs_ri'><div class='gs_fl'><a href='/scholar?q=related'>Related articles</a></div></div></div></body></html>";
    let doc = SearchDocument::from_html(html);
    assert_eq!(doc.scrape_papers().unwrap_err(), ScrapeError::MissingField);
}

#[test]
fn citation_link_without_count_text_is_no_match() {
    let html = "<html><body><div id='gs_res_ccl_mid'><div class='gs_ri'><div class='gs_fl'><a href='/scholar?cites=42'>Cited by</a></div></div></div></body></html>";
    let doc = SearchDocument::from_html(html);
    assert_eq!(doc.scrape_papers().unwrap_err(), ScrapeError::NoMatch);
}

#[test]
fn page_without_results_container_yields_no_papers() {
    let doc = SearchDocument::from_html("<html><body><p>nothing here</p></body></html>");
    assert_eq!(doc.scrape_papers().unwrap().len(), 0);
}

#[test]
fn page_without_header_has_no_target_paper() {
    let doc = CitationDocument::from_html("<html><body><p>nothing here</p></body></html>");
    assert_eq!(doc.scrape_target_paper().unwrap_err(), ScrapeError::MissingField);
}

#[test]
fn first_parseable_footer_link_wins() {
    // The versions link comes first and its target parses, so it is taken
    // for both the identifier and the count, ahead of the cited-by link.
    let html = "<html><body><div id='gs_res_ccl_mid'><div class='gs_ri'><div class='gs_fl'><a href='/scholar?cluster=99'>All 5 versions</a><a href='/scholar?cites=42'>Cited by 7</a></div></div></div></body></html>";
    let doc = SearchDocument::from_html(html);
    let papers = doc.scrape_papers().unwrap();
    assert_eq!(papers.len(), 1);
    assert_eq!(papers[0].id, 99);
    assert_eq!(papers[0].citation_count, Some(5));
    assert_eq!(papers[0].title, "");
}

#[test]
fn class_membership_is_token_based() {
    // `gs_ri` must match as a whole whitespace-delimited token: a block with
    // extra classes matches, a block whose class merely starts with `gs_ri`
    // does not.
    let html = "<html><body><div id='gs_res_ccl_mid'><div class='result gs_ri highlight'><div class='gs_fl'><a href='?cites=5'>Cited by 3</a></div></div><div class='gs_ri2'><div class='gs_fl'><a href='?cites=6'>Cited by 4</a></div></div></div></body></html>";
    let doc = SearchDocument::from_html(html);
    let papers = doc.scrape_papers().unwrap();
    assert_eq!(papers.len(), 1);
    assert_eq!(papers[0].id, 5);
    assert_eq!(papers[0].citation_count, Some(3));
}

#[test]
fn header_title_without_link_is_missing_field() {
    // The header's title node may be plain text, but a target paper without
    // a link target has no identifier.
    let html = "<html><body><div id='gs_rt_hdr'><h2>Plain title text</h2></div></body></html>";
    let doc = CitationDocument::from_html(html);
    assert_eq!(doc.scrape_target_paper().unwrap_err(), ScrapeError::MissingField);
}

#[test]
fn first_failing_block_aborts_the_page() {
    // The second of three blocks has no footer: the whole call fails even
    // though the first and third are fine.
    let mut blocks = String::new();
    blocks.push_str(&linked_block("Fine paper", 7, 1));
    blocks.push_str("<div class='gs_ri'><h3 class='gs_rt'><a href='http://x'>Broken</a></h3></div>");
    blocks.push_str(&linked_block("Also fine", 8, 2));
    let html = format!("<html><body><div id='gs_res_ccl_mid'>{blocks}</div></body></html>");
    let doc = SearchDocument::from_html(&html);
    assert_eq!(doc.scrape_papers().unwrap_err(), ScrapeError::MissingField);
}
