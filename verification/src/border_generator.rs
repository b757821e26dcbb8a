//! The bleed border and uniqueness mark that MakePlayingCards uploads need.

use vstd::prelude::*;
use crate::text::{nat_decimal, u32_to_decimal};

verus! {

/// The size an image has once its bleed border is added.
#[derive(Debug, Clone, Copy, PartialEq, Eq, Structural)]
pub struct BorderConfig {
    pub bleed_width: u32,
    pub bleed_height: u32,
}

/// The message for an image that is already larger than its bleed size.
pub open spec fn too_large_message(width: u32, height: u32, bleed_width: u32, bleed_height: u32) -> Seq<char> {
    "Image "@ + nat_decimal(width as nat) + "×"@ + nat_decimal(height as nat)
        + " is already larger than bleed size "@ + nat_decimal(bleed_width as nat) + "×"@
        + nat_decimal(bleed_height as nat)
}

/// How many pixels of edge to replicate on the left and right, and on the top
/// and bottom, to bring an image of `width` by `height` to the bleed size: half
/// the difference on each side, rounded down. An image larger than the bleed
/// size in either direction is refused.
pub fn border_padding(config: &BorderConfig, width: u32, height: u32) -> (res: Result<(u32, u32), String>)
    ensures
        match res {
            Ok((border_width, border_height)) => {
                &&& config.bleed_width >= width && config.bleed_height >= height
                &&& border_width == (config.bleed_width - width) / 2
                &&& border_height == (config.bleed_height - height) / 2
            },
            Err(msg) => {
                &&& (config.bleed_width < width || config.bleed_height < height)
                &&& msg@ == too_large_message(width, height, config.bleed_width, config.bleed_height)
            },
        },
{
    let border_width = config.bleed_width.saturating_sub(width) / 2;
    let border_height = config.bleed_height.saturating_sub(height) / 2;
    if config.bleed_width < width || config.bleed_height < height {
        let mut msg = String::from_str("Image ");
        let w = u32_to_decimal(width);
        msg.append(w.as_str());
        msg.append("×");
        let h = u32_to_decimal(height);
        msg.append(h.as_str());
        msg.append(" is already larger than bleed size ");
        let bw = u32_to_decimal(config.bleed_width);
        msg.append(bw.as_str());
        msg.append("×");
        let bh = u32_to_decimal(config.bleed_height);
        msg.append(bh.as_str());
        return Err(msg);
    }
    Ok((border_width, border_height))
}

/// The red channel of the marked pixel: raised by ten times the position,
/// that product taken modulo 256, and capped at 255.
pub open spec fn marked_red(red: u8, position: u32) -> u8 {
    let step = ((position * 10) % 256) as int;
    if red + step > 255 {
        255
    } else {
        (red + step) as u8
    }
}

/// The new red value of the pixel at column `position` of the top row, which
/// makes copies of one image differ so that the upload is not deduplicated.
pub fn marked_red_channel(red: u8, position: u32) -> (res: u8)
    requires
        position * 10 <= u32::MAX,
    ensures
        res == marked_red(red, position),
{
    let step: u8 = ((position * 10) % 256) as u8;
    red.saturating_add(step)
}

/// The source pixel that a pixel of the bordered image copies when edges are
/// replicated: its position less the border, saturating at zero and held
/// inside the source image.
pub open spec fn replicated_source(x: u32, y: u32, border_width: u32, border_height: u32, width: u32, height: u32) -> (u32, u32) {
    let sx = if x >= border_width { (x - border_width) as u32 } else { 0u32 };
    let sy = if y >= border_height { (y - border_height) as u32 } else { 0u32 };
    (
        if sx <= width - 1 { sx } else { (width - 1) as u32 },
        if sy <= height - 1 { sy } else { (height - 1) as u32 },
    )
}

/// Which pixel of a `width` by `height` source image the pixel at (`x`, `y`)
/// of the image with replicated borders of `border_width` and
/// `border_height` takes its colour from.
pub fn bleed_source_pixel(x: u32, y: u32, border_width: u32, border_height: u32, width: u32, height: u32) -> (res: (u32, u32))
    requires
        width > 0,
        height > 0,
    ensures
        res == replicated_source(x, y, border_width, border_height, width, height),
        res.0 < width,
        res.1 < height,
        x < border_width ==> res.0 == 0,
        y < border_height ==> res.1 == 0,
        border_width <= x < border_width + width ==> res.0 == x - border_width,
        border_height <= y < border_height + height ==> res.1 == y - border_height,
        x >= border_width + width ==> res.0 == width - 1,
        y >= border_height + height ==> res.1 == height - 1,
{
    let sx = x.saturating_sub(border_width);
    let sy = y.saturating_sub(border_height);
    let cx = if sx <= width - 1 { sx } else { width - 1 };
    let cy = if sy <= height - 1 { sy } else { height - 1 };
    (cx, cy)
}

} // verus!
