//! Print options for PDF output, and the images a print run places.

use vstd::prelude::*;
use crate::models::{chosen_image, opt_text, BleedPreference, Printing, PrintingPart, SourceImage};

verus! {

/// Where cut lines are drawn on a page: not at all, as short marks in the
/// margins, or across the whole page.
#[derive(Clone, Copy, Debug, Default, PartialEq, Eq, Structural)]
pub enum CutLines {
    NoLines,
    #[default]
    Margins,
    FullPage,
}

/// How cards sit on a page.
#[derive(Clone, Copy, Debug, Default, PartialEq, Eq, Structural)]
pub enum PrintLayout {
    #[default]
    EdgeToEdge,
    Gap,
    Margin,
    Bleed,
}

/// The image a part contributes to a print run: the one `PrintingPart::image`
/// chooses, or nothing when the part has no image file.
pub open spec fn part_images(part: PrintingPart, preferred: BleedPreference) -> Seq<(Seq<char>, bool)> {
    match chosen_image(opt_text(part.image_key), opt_text(part.bleed_image_key), preferred) {
        Some(i) => seq![i],
        None => Seq::empty(),
    }
}

/// The images of a list of parts, in order.
pub open spec fn parts_images(parts: Seq<PrintingPart>, preferred: BleedPreference) -> Seq<(Seq<char>, bool)>
    decreases parts.len(),
{
    if parts.len() == 0 {
        Seq::empty()
    } else {
        parts_images(parts.drop_last(), preferred) + part_images(parts.last(), preferred)
    }
}

/// The images of one printing: its front, then its other parts in order.
pub open spec fn printing_images(p: Printing, preferred: BleedPreference) -> Seq<(Seq<char>, bool)> {
    part_images(p.front, preferred) + parts_images(p.parts@, preferred)
}

/// The images a print run places, printing after printing, each laid out as
/// `printing_images` says.
pub open spec fn print_sources_of(printings: Seq<Printing>, preferred: BleedPreference) -> Seq<(Seq<char>, bool)>
    decreases printings.len(),
{
    if printings.len() == 0 {
        Seq::empty()
    } else {
        print_sources_of(printings.drop_last(), preferred) + printing_images(printings.last(), preferred)
    }
}

fn push_part_image(out: &mut Vec<SourceImage>, part: &PrintingPart, preferred: BleedPreference)
    ensures
        final(out)@.map_values(|s: SourceImage| s@) == old(out)@.map_values(|s: SourceImage| s@)
            + part_images(*part, preferred),
{
    let ghost before = out@;
    match part.image(preferred) {
        Some(img) => {
            out.push(img);
            assert(out@.map_values(|s: SourceImage| s@) =~= before.map_values(|s: SourceImage| s@)
                + part_images(*part, preferred));
        },
        None => {
            assert(out@.map_values(|s: SourceImage| s@) =~= before.map_values(|s: SourceImage| s@)
                + part_images(*part, preferred));
        },
    }
}

/// Every image a print run places, in order: for each printing its front, then
/// its other parts, each in the preferred kind when it has it and in the other
/// kind otherwise; parts without any image file are skipped.
pub fn print_sources(printings: &Vec<Printing>, preferred: BleedPreference) -> (sources: Vec<SourceImage>)
    ensures
        sources@.map_values(|s: SourceImage| s@) == print_sources_of(printings@, preferred),
{
    let mut out: Vec<SourceImage> = Vec::new();
    let mut i: usize = 0;
    assert(out@.map_values(|s: SourceImage| s@) =~= print_sources_of(printings@.take(0), preferred));
    while i < printings.len()
        invariant
            i <= printings.len(),
            out@.map_values(|s: SourceImage| s@) == print_sources_of(printings@.take(i as int), preferred),
        decreases printings.len() - i,
    {
        let p = &printings[i];
        let ghost start = out@.map_values(|s: SourceImage| s@);
        push_part_image(&mut out, &p.front, preferred);
        let mut j: usize = 0;
        assert(p.parts@.take(0) =~= Seq::<PrintingPart>::empty());
        while j < p.parts.len()
            invariant
                j <= p.parts.len(),
                p == printings@[i as int],
                out@.map_values(|s: SourceImage| s@) == start + part_images(p.front, preferred)
                    + parts_images(p.parts@.take(j as int), preferred),
            decreases p.parts.len() - j,
        {
            let ghost mid = out@.map_values(|s: SourceImage| s@);
            push_part_image(&mut out, &p.parts[j], preferred);
            proof {
                assert(p.parts@.take(j + 1).drop_last() =~= p.parts@.take(j as int));
                assert(p.parts@.take(j + 1).last() == p.parts@[j as int]);
                assert(out@.map_values(|s: SourceImage| s@) =~= start + part_images(p.front, preferred)
                    + parts_images(p.parts@.take(j + 1), preferred));
            }
            j += 1;
        }
        proof {
            assert(p.parts@.take(p.parts.len() as int) =~= p.parts@);
            assert(printings@.take(i + 1).drop_last() =~= printings@.take(i as int));
            assert(printings@.take(i + 1).last() == printings@[i as int]);
            assert(out@.map_values(|s: SourceImage| s@) =~= print_sources_of(printings@.take(i + 1), preferred));
        }
        i += 1;
    }
    assert(printings@.take(printings.len() as int) =~= printings@);
    out
}

/// The part has both a plain and a bleed image.
pub open spec fn has_both_images(part: PrintingPart) -> bool {
    part.image_key is Some && part.bleed_image_key is Some
}

/// Every part of every printing, front or other, has both kinds of image.
pub open spec fn all_parts_have_both_images(printings: Seq<Printing>) -> bool {
    forall|i: int|
        0 <= i < printings.len() ==> has_both_images(#[trigger] printings[i].front) && forall|j: int|
            0 <= j < printings[i].parts.len() ==> has_both_images(#[trigger] printings[i].parts@[j])
}

/// How many parts the printings have, fronts included.
pub open spec fn part_count(printings: Seq<Printing>) -> nat
    decreases printings.len(),
{
    if printings.len() == 0 {
        0
    } else {
        part_count(printings.drop_last()) + 1 + printings.last().parts@.len()
    }
}

proof fn lemma_parts_images_kind(parts: Seq<PrintingPart>, preferred: BleedPreference)
    requires
        forall|j: int| 0 <= j < parts.len() ==> has_both_images(#[trigger] parts[j]),
    ensures
        parts_images(parts, preferred).len() == parts.len(),
        forall|k: int|
            0 <= k < parts.len() ==> (#[trigger] parts_images(parts, preferred)[k]).1 == (preferred
                == BleedPreference::Bleed),
    decreases parts.len(),
{
    if parts.len() > 0 {
        let init = parts.drop_last();
        assert forall|j: int| 0 <= j < init.len() implies has_both_images(#[trigger] init[j]) by {
            assert(init[j] == parts[j]);
        }
        lemma_parts_images_kind(init, preferred);
        assert(has_both_images(parts[parts.len() - 1]));
    }
}

/// When every part has both kinds of image, a print run places one image per
/// part, and every image it places is of the preferred kind: bleed images
/// when bleed is preferred, plain ones otherwise, for fronts and other parts
/// alike.
pub proof fn every_part_prints_in_the_preferred_kind(printings: Seq<Printing>, preferred: BleedPreference)
    requires
        all_parts_have_both_images(printings),
    ensures
        print_sources_of(printings, preferred).len() == part_count(printings),
        forall|k: int|
            0 <= k < part_count(printings) ==> (#[trigger] print_sources_of(printings, preferred)[k]).1 == (
            preferred == BleedPreference::Bleed),
    decreases printings.len(),
{
    if printings.len() > 0 {
        let init = printings.drop_last();
        let p = printings.last();
        assert forall|i: int| 0 <= i < init.len() implies has_both_images(#[trigger] init[i].front) && forall|j: int|
            0 <= j < init[i].parts.len() ==> has_both_images(#[trigger] init[i].parts@[j]) by {
            assert(init[i] == printings[i]);
        }
        every_part_prints_in_the_preferred_kind(init, preferred);
        assert(has_both_images(printings[printings.len() - 1].front));
        assert forall|j: int| 0 <= j < p.parts@.len() implies has_both_images(#[trigger] p.parts@[j]) by {
            assert(has_both_images(printings[printings.len() - 1].parts@[j]));
        }
        lemma_parts_images_kind(p.parts@, preferred);
        let before = print_sources_of(init, preferred);
        let front = part_images(p.front, preferred);
        let rest = parts_images(p.parts@, preferred);
        assert(front.len() == 1 && front[0].1 == (preferred == BleedPreference::Bleed));
        assert forall|k: int|
            0 <= k < part_count(printings) implies (#[trigger] print_sources_of(printings, preferred)[k]).1 == (
            preferred == BleedPreference::Bleed) by {
            let all = before + front + rest;
            assert(print_sources_of(printings, preferred) == all);
            if k < before.len() {
                assert(all[k] == before[k]);
            } else if k == before.len() {
                assert(all[k] == front[0]);
            } else {
                assert(all[k] == rest[k - before.len() - 1]);
            }
        }
    }
}

} // verus!
