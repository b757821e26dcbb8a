use proxynexus_core::models::{BleedPreference, Printing, PrintingPart, SourceImage};
use proxynexus_core::pdf::{print_sources, CutLines, PrintLayout};

fn part(name: &str, plain: Option<&str>, bleed: Option<&str>) -> PrintingPart {
    PrintingPart {
        name: name.into(),
        image_key: plain.map(|k| k.to_string()),
        bleed_image_key: bleed.map(|k| k.to_string()),
    }
}

fn printing(front: PrintingPart, parts: Vec<PrintingPart>) -> Printing {
    Printing {
        card_id: "hedge_fund".into(),
        card_title: "Hedge Fund".into(),
        is_official: true,
        variant: None,
        front,
        parts,
        collection: "nsg".into(),
        side: "corp".into(),
        pack_id: None,
        date_release: None,
        position: None,
    }
}

fn image(key: &str, has_bleed: bool) -> SourceImage {
    SourceImage { key: key.into(), has_bleed }
}

#[test]
fn print_sources_lists_fronts_then_parts_in_order() {
    let printings = vec![
        printing(
            part("front", Some("a.jpg"), Some("a.bleed.jpg")),
            vec![part("back", Some("a~back.jpg"), None), part("extra", None, None)],
        ),
        printing(part("front", None, Some("b.bleed.jpg")), Vec::new()),
    ];
    assert_eq!(
        print_sources(&printings, BleedPreference::NoBleed),
        vec![image("a.jpg", false), image("a~back.jpg", false), image("b.bleed.jpg", true)]
    );
    assert_eq!(
        print_sources(&printings, BleedPreference::Bleed),
        vec![image("a.bleed.jpg", true), image("a~back.jpg", false), image("b.bleed.jpg", true)]
    );
}

#[test]
fn print_sources_of_nothing_is_empty() {
    assert!(print_sources(&Vec::new(), BleedPreference::Bleed).is_empty());
}

#[test]
fn layout_defaults_are_margin_marks_and_edge_to_edge() {
    assert_eq!(CutLines::default(), CutLines::Margins);
    assert_eq!(PrintLayout::default(), PrintLayout::EdgeToEdge);
}
