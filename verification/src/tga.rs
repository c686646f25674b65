use vstd::prelude::*;

verus! {

/// The 18-byte header of an uncompressed 24-bit true-color TGA file:
/// no image id, no color map, image type 2, the dimensions in
/// little-endian 16-bit fields, 24 bits per pixel.
pub fn get_tga_header(width: i32, height: i32) -> (h: Vec<u8>)
    requires
        0 <= width < 65536,
        0 <= height < 65536,
    ensures
        h@.len() == 18,
        h@[0] == 0u8 && h@[1] == 0u8,
        h@[2] == 2u8,
        h@[3] == 0u8 && h@[4] == 0u8 && h@[5] == 0u8 && h@[6] == 0u8 && h@[7] == 0u8,
        h@[8] == 0u8 && h@[9] == 0u8 && h@[10] == 0u8 && h@[11] == 0u8,
        h@[12] == (width as int % 256) as u8,
        h@[13] == (width as int / 256) as u8,
        h@[14] == (height as int % 256) as u8,
        h@[15] == (height as int / 256) as u8,
        h@[16] == 24u8,
        h@[17] == 0u8,
{
    let mut h: Vec<u8> = Vec::new();
    h.push(0);  // image id length
    h.push(0);  // no color map
    h.push(2);  // uncompressed true color
    h.push(0);  // color map specification
    h.push(0);
    h.push(0);
    h.push(0);
    h.push(0);
    h.push(0);  // x origin
    h.push(0);
    h.push(0);  // y origin
    h.push(0);
    h.push((width % 256) as u8);
    h.push((width / 256) as u8);
    h.push((height % 256) as u8);
    h.push((height / 256) as u8);
    h.push(24);  // bits per pixel
    h.push(0);  // descriptor
    h
}

/// Reads the dimensions and byte depth back out of a TGA header:
/// `(width, height, bytes per pixel)`.
pub fn parse_tga_header(h: &Vec<u8>) -> (r: Option<(usize, usize, usize)>)
    ensures
        match r {
            Some(d) => {
                &&& h@.len() >= 18
                &&& d.0 == h@[12] + 256 * h@[13]
                &&& d.1 == h@[14] + 256 * h@[15]
                &&& d.2 == h@[16] / 8
            },
            None => h@.len() < 18,
        },
{
    if h.len() < 18 {
        return None;
    }
    let w = (h[12] as usize) + 256 * (h[13] as usize);
    let ht = (h[14] as usize) + 256 * (h[15] as usize);
    let bpp = (h[16] / 8) as usize;
    Some((w, ht, bpp))
}

} // verus!
