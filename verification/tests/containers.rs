use genet_livery::containers::{
    container_sources, restyle_after_round, restyle_start, ContainerSources, QueryContainer, RestyleStep,
    CONTAINER_QUERY_ROUNDS,
};
use genet_livery::document::DocumentTree;
use genet_livery::taffy_style::ContainerType;

fn container(container_type: ContainerType, vertical: bool, laid_out: bool) -> QueryContainer {
    QueryContainer { container_type, vertical, laid_out }
}

fn all(source: Option<usize>) -> ContainerSources {
    ContainerSources { width: source, height: source, inline: source, block: source }
}

#[test]
fn containers_supply_the_bases_their_type_names() {
    let tree = DocumentTree::from_parents(vec![None, Some(0), Some(1), Some(2), Some(3), Some(2), Some(5)])
        .unwrap();
    let plain = container(ContainerType::Normal, false, true);
    let facts = vec![
        plain,
        plain,
        container(ContainerType::Size, false, true),
        container(ContainerType::InlineSize, true, true),
        plain,
        container(ContainerType::InlineSize, false, false),
        plain,
    ];
    let sources = container_sources(&tree, &facts);
    assert_eq!(sources.len(), 7);
    assert_eq!(sources[0], all(None));
    assert_eq!(sources[2], all(None));
    assert_eq!(sources[3], all(Some(2)));
    assert_eq!(
        sources[4],
        ContainerSources { width: Some(2), height: Some(3), inline: Some(3), block: Some(2) }
    );
    assert_eq!(sources[5], all(Some(2)));
    assert_eq!(sources[6], all(Some(2)));
}

#[test]
fn a_horizontal_inline_size_container_supplies_width_and_inline() {
    let tree = DocumentTree::from_parents(vec![None, Some(0), Some(1)]).unwrap();
    let facts = vec![
        container(ContainerType::Normal, false, true),
        container(ContainerType::InlineSize, false, true),
        container(ContainerType::Normal, false, true),
    ];
    let sources = container_sources(&tree, &facts);
    assert_eq!(
        sources[2],
        ContainerSources { width: Some(1), height: None, inline: Some(1), block: None }
    );
    // Facts missing for a node leave it no container.
    let sources = container_sources(&tree, &vec![]);
    assert_eq!(sources[2], all(None));
}

#[test]
fn restyle_loop_runs_only_with_container_queries() {
    assert_eq!(restyle_start(false), RestyleStep::ResolveOnce);
    assert_eq!(restyle_start(true), RestyleStep::Round(0));
}

#[test]
fn restyle_loop_stops_when_stable_or_out_of_rounds() {
    assert_eq!(restyle_after_round(0, true), RestyleStep::KeepResolved);
    assert_eq!(restyle_after_round(0, false), RestyleStep::Round(1));
    assert_eq!(restyle_after_round(6, false), RestyleStep::Round(7));
    assert_eq!(restyle_after_round(7, false), RestyleStep::ResolveLast);
    assert_eq!(restyle_after_round(7, true), RestyleStep::KeepResolved);
    let mut step = restyle_start(true);
    let mut rounds = 0;
    while let RestyleStep::Round(n) = step {
        rounds += 1;
        step = restyle_after_round(n, false);
    }
    assert_eq!(rounds, CONTAINER_QUERY_ROUNDS);
    assert_eq!(step, RestyleStep::ResolveLast);
}
