//! The photos of the help wiki.

use vstd::prelude::*;

use crate::text;

verus! {

/// A photo shown on a page, with the credit its licence requires. The photos themselves lie
/// beside the pages, under the same names.
#[derive(Debug, Clone, Copy, PartialEq, Eq)]
pub struct Image {
    pub file: &'static str,
    pub width: u32,
    pub height: u32,
    pub author: &'static str,
    pub license: &'static str,
    pub license_url: &'static str,
    pub source_url: &'static str,
}

/// How many photos there are.
pub const IMAGE_COUNT: usize = 10;

/// The name of a photo; they are sorted by name.
pub open spec fn image_file(i: int) -> Seq<char> {
    if i == 0 {
        "abs-millennium-falcon.jpg"@
    } else if i == 1 {
        "nylon-snow-machine-nozzle.jpg"@
    } else if i == 2 {
        "petg-pulley-shaft.jpg"@
    } else if i == 3 {
        "petg-warp-core-lamp.jpg"@
    } else if i == 4 {
        "pla-benchy-black.jpg"@
    } else if i == 5 {
        "pla-galaxy-chopsticks.jpg"@
    } else if i == 6 {
        "pla-silk-stella-octangula.jpg"@
    } else if i == 7 {
        "pla-translucent-benchy.jpg"@
    } else if i == 8 {
        "pla-wood-benchy.jpg"@
    } else {
        "tpu-flexible-wrench.jpg"@
    }
}

/// How high a photo is, in pixels.
pub open spec fn image_height(i: int) -> u32 {
    if i == 0 {
        720
    } else if i == 1 {
        640
    } else if i == 2 {
        720
    } else if i == 3 {
        720
    } else if i == 4 {
        711
    } else if i == 5 {
        519
    } else if i == 6 {
        948
    } else if i == 7 {
        711
    } else if i == 8 {
        711
    } else {
        540
    }
}

/// Who took a photo.
pub open spec fn image_author(i: int) -> Seq<char> {
    if i == 0 {
        "syvwlch"@
    } else if i == 1 {
        "Svitlana Lozova"@
    } else if i == 2 {
        "newman72"@
    } else if i == 3 {
        "Larsan"@
    } else if i == 4 {
        "3DBenchy"@
    } else if i == 5 {
        "Marcosticks"@
    } else if i == 6 {
        "Regular Polyhedron"@
    } else if i == 7 {
        "3DBenchy"@
    } else if i == 8 {
        "3DBenchy"@
    } else {
        "Creative Tools"@
    }
}

/// Where a photo comes from.
pub open spec fn image_source(i: int) -> Seq<char> {
    if i == 0 {
        "https://commons.wikimedia.org/wiki/File:Millennium_Falcon_(5893908434).jpg"@
    } else if i == 1 {
        "https://commons.wikimedia.org/wiki/File:3D_printed_snow_machine_nozzle.jpg"@
    } else if i == 2 {
        "https://commons.wikimedia.org/wiki/File:First_PETG_3D_FLM_Printed_Pulley_Shaft_Design_(49014483321).jpg"@
    } else if i == 3 {
        "https://commons.wikimedia.org/wiki/File:Stratum_0_Warpcore_frickelraum.jpg"@
    } else if i == 4 {
        "https://commons.wikimedia.org/wiki/File:-3DBenchy_Ultimaker2_cura_layer_0,2mm_v3_(17034996319).jpg"@
    } else if i == 5 {
        "https://commons.wikimedia.org/wiki/File:Marcosticks-3D-printed_Ergonomic_chopsticks.png"@
    } else if i == 6 {
        "https://commons.wikimedia.org/wiki/File:Pink_3D_Printed_Stella_Octangula_-3.jpg"@
    } else if i == 7 {
        "https://commons.wikimedia.org/wiki/File:3DBenchy.com_-_-3DBenchy_-_Green_Translucent_PLA_v01_(16725186103).jpg"@
    } else if i == 8 {
        "https://commons.wikimedia.org/wiki/File:-3DBenchy_by_CT3D.xyz_-_3D-printed_with_ECO_Wood_filament_(16500744844).jpg"@
    } else {
        "https://www.flickr.com/photos/33907867@N02/16385359401"@
    }
}

/// Whether a photo may only be shared under the terms it came with.
pub open spec fn shares_alike(i: int) -> bool {
    i == 1 || i == 3 || i == 5 || i == 6
}

/// The photo with the given number, with its credit.
pub open spec fn is_nth_image(image: Image, i: int) -> bool {
    &&& image.file@ == image_file(i)
    &&& image.width == 960
    &&& image.height == image_height(i)
    &&& image.author@ == image_author(i)
    &&& image.source_url@ == image_source(i)
    &&& image.license@ == if shares_alike(i) {
        "CC BY-SA 4.0"@
    } else {
        "CC BY 2.0"@
    }
    &&& image.license_url@ == if shares_alike(i) {
        "https://creativecommons.org/licenses/by-sa/4.0/"@
    } else {
        "https://creativecommons.org/licenses/by/2.0/"@
    }
}

fn free_image(
    file: &'static str,
    height: u32,
    author: &'static str,
    source_url: &'static str,
) -> (r: Image)
    ensures
        r.file@ == file@,
        r.width == 960,
        r.height == height,
        r.author@ == author@,
        r.license@ == "CC BY 2.0"@,
        r.license_url@ == "https://creativecommons.org/licenses/by/2.0/"@,
        r.source_url@ == source_url@,
{
    Image {
        file,
        width: 960,
        height,
        author,
        license: "CC BY 2.0",
        license_url: "https://creativecommons.org/licenses/by/2.0/",
        source_url,
    }
}

fn alike_image(
    file: &'static str,
    height: u32,
    author: &'static str,
    source_url: &'static str,
) -> (r: Image)
    ensures
        r.file@ == file@,
        r.width == 960,
        r.height == height,
        r.author@ == author@,
        r.license@ == "CC BY-SA 4.0"@,
        r.license_url@ == "https://creativecommons.org/licenses/by-sa/4.0/"@,
        r.source_url@ == source_url@,
{
    Image {
        file,
        width: 960,
        height,
        author,
        license: "CC BY-SA 4.0",
        license_url: "https://creativecommons.org/licenses/by-sa/4.0/",
        source_url,
    }
}

/// The photo with the given number.
pub fn nth_image(i: usize) -> (r: Image)
    requires
        i < IMAGE_COUNT,
    ensures
        is_nth_image(r, i as int),
{
    match i {
        0 => free_image(
            "abs-millennium-falcon.jpg",
            720,
            "syvwlch",
            "https://commons.wikimedia.org/wiki/File:Millennium_Falcon_(5893908434).jpg",
        ),
        1 => alike_image(
            "nylon-snow-machine-nozzle.jpg",
            640,
            "Svitlana Lozova",
            "https://commons.wikimedia.org/wiki/File:3D_printed_snow_machine_nozzle.jpg",
        ),
        2 => free_image(
            "petg-pulley-shaft.jpg",
            720,
            "newman72",
            "https://commons.wikimedia.org/wiki/File:First_PETG_3D_FLM_Printed_Pulley_Shaft_Design_(49014483321).jpg",
        ),
        3 => alike_image(
            "petg-warp-core-lamp.jpg",
            720,
            "Larsan",
            "https://commons.wikimedia.org/wiki/File:Stratum_0_Warpcore_frickelraum.jpg",
        ),
        4 => free_image(
            "pla-benchy-black.jpg",
            711,
            "3DBenchy",
            "https://commons.wikimedia.org/wiki/File:-3DBenchy_Ultimaker2_cura_layer_0,2mm_v3_(17034996319).jpg",
        ),
        5 => alike_image(
            "pla-galaxy-chopsticks.jpg",
            519,
            "Marcosticks",
            "https://commons.wikimedia.org/wiki/File:Marcosticks-3D-printed_Ergonomic_chopsticks.png",
        ),
        6 => alike_image(
            "pla-silk-stella-octangula.jpg",
            948,
            "Regular Polyhedron",
            "https://commons.wikimedia.org/wiki/File:Pink_3D_Printed_Stella_Octangula_-3.jpg",
        ),
        7 => free_image(
            "pla-translucent-benchy.jpg",
            711,
            "3DBenchy",
            "https://commons.wikimedia.org/wiki/File:3DBenchy.com_-_-3DBenchy_-_Green_Translucent_PLA_v01_(16725186103).jpg",
        ),
        8 => free_image(
            "pla-wood-benchy.jpg",
            711,
            "3DBenchy",
            "https://commons.wikimedia.org/wiki/File:-3DBenchy_by_CT3D.xyz_-_3D-printed_with_ECO_Wood_filament_(16500744844).jpg",
        ),
        _ => free_image(
            "tpu-flexible-wrench.jpg",
            540,
            "Creative Tools",
            "https://www.flickr.com/photos/33907867@N02/16385359401",
        ),
    }
}

/// The first photo from number `i` on with the given name, or the number of photos.
pub open spec fn image_at(file: Seq<char>, i: int) -> int
    decreases IMAGE_COUNT - i,
{
    if i >= IMAGE_COUNT {
        IMAGE_COUNT as int
    } else if image_file(i) == file {
        i
    } else {
        image_at(file, i + 1)
    }
}

pub fn image(file: &str) -> (r: Option<Image>)
    ensures
        match r {
            Some(image) => image_at(file@, 0) < IMAGE_COUNT && is_nth_image(
                image,
                image_at(file@, 0),
            ) && image.file@ == file@,
            None => image_at(file@, 0) == IMAGE_COUNT,
        },
{
    let mut i: usize = 0;
    while i < IMAGE_COUNT
        invariant
            i <= IMAGE_COUNT,
            image_at(file@, 0) == image_at(file@, i as int),
        decreases IMAGE_COUNT - i,
    {
        let image = nth_image(i);
        if text::same(image.file, file) {
            return Some(image);
        }
        i += 1;
    }
    None
}

} // verus!
