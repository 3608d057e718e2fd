use vstd::prelude::*;

use crate::text::{before_first, decimal, prefix_before, push_decimal, replace_all, replace_str, str_equal};

verus! {

/// Image host of production assets.
pub const PROD_CDN_URL: &'static str = "https://resources.archisketch.com";

/// Image-resizing host of production assets.
pub const PROD_I_URL: &'static str = "https://i.archisketch.com";

/// Image host of development assets.
pub const DEV_CDN_URL: &'static str = "https://dev-resources.archisketch.com";

/// Image-resizing host of development assets.
pub const DEV_I_URL: &'static str = "https://dev-i.archisketch.com";

/// Pixel size of a rendered image.
#[derive(Clone, Copy, Debug, Default, PartialEq, Eq, Structural)]
pub struct Resolution {
    pub x: i32,
    pub y: i32,
}

/// A rendered image of a project.
#[derive(Clone, Debug)]
pub struct Image {
    pub id: String,
    pub image_type: i32,
    pub status: i32,
    pub resolution: Resolution,
}

/// Pixel size of a rendering, as reported.
#[derive(Clone, Copy, Debug, PartialEq, Eq, Structural)]
pub struct ProjectRenderingResolutionResponse {
    pub x: i32,
    pub y: i32,
}

/// One rendering of a project, as reported.
#[derive(Clone, Debug)]
pub struct ProjectRenderingImageResponse {
    pub id: String,
    pub image_type: i32,
    pub status: i32,
    pub resolution: ProjectRenderingResolutionResponse,
}

/// The renderings of a project, as reported.
#[derive(Clone, Debug)]
pub struct ProjectRenderingsResponse {
    pub images: Vec<ProjectRenderingImageResponse>,
}

impl ProjectRenderingsResponse {
    pub fn new(images: Vec<ProjectRenderingImageResponse>) -> (r: Self)
        ensures
            r.images == images,
    {
        ProjectRenderingsResponse { images }
    }
}

/// `out` reports the image `image`.
pub open spec fn reports_image(out: ProjectRenderingImageResponse, image: Image) -> bool {
    &&& out.id@ == image.id@
    &&& out.image_type == image.image_type
    &&& out.status == image.status
    &&& out.resolution.x == image.resolution.x
    &&& out.resolution.y == image.resolution.y
}

impl ProjectRenderingImageResponse {
    /// The report of one image.
    pub fn from_image(image: &Image) -> (r: Self)
        ensures
            reports_image(r, *image),
    {
        ProjectRenderingImageResponse {
            id: image.id.clone(),
            image_type: image.image_type,
            status: image.status,
            resolution: ProjectRenderingResolutionResponse { x: image.resolution.x, y: image.resolution.y },
        }
    }
}

/// The first image stored under `id`, if any.
pub open spec fn first_with_id(images: Seq<Image>, id: Seq<char>) -> Option<Image>
    decreases images.len(),
{
    if images.len() == 0 {
        None
    } else if images[0].id@ == id {
        Some(images[0])
    } else {
        first_with_id(images.drop_first(), id)
    }
}

/// The images listed by `ids`, in the order of `ids`, each as the first
/// image with that id; ids without an image are skipped.
pub open spec fn images_in_order(ids: Seq<Seq<char>>, images: Seq<Image>) -> Seq<Image>
    decreases ids.len(),
{
    if ids.len() == 0 {
        Seq::empty()
    } else {
        let rest = images_in_order(ids.drop_last(), images);
        match first_with_id(images, ids.last()) {
            Some(img) => rest.push(img),
            None => rest,
        }
    }
}

fn find_image(images: &Vec<Image>, id: &str) -> (r: Option<usize>)
    ensures
        match first_with_id(images@, id@) {
            Some(img) => r is Some && (r->0 as int) < images@.len() && images@[r->0 as int] == img,
            None => r is None,
        },
{
    let mut i: usize = 0;
    proof {
        assert(images@.subrange(0, images@.len() as int) =~= images@);
    }
    while i < images.len()
        invariant
            i <= images@.len(),
            first_with_id(images@, id@) == first_with_id(images@.subrange(i as int, images@.len() as int), id@),
            forall|j: int| #![auto] 0 <= j < i ==> images@[j].id@ != id@,
        decreases images@.len() - i,
    {
        let ghost rest = images@.subrange(i as int, images@.len() as int);
        proof {
            assert(rest[0] == images@[i as int]);
            assert(rest.drop_first() =~= images@.subrange(i + 1, images@.len() as int));
        }
        if str_equal(images[i].id.as_str(), id) {
            return Some(i);
        }
        i = i + 1;
    }
    None
}

/// Reports the images of a project in the order its image ids give,
/// skipping ids that have no image.
pub fn renderings_in_order(image_ids: &Vec<String>, images: &Vec<Image>) -> (r: ProjectRenderingsResponse)
    ensures
        r.images@.len() == images_in_order(image_ids@.map_values(|s: String| s@), images@).len(),
        forall|i: int|
            0 <= i < r.images@.len() ==> reports_image(
                #[trigger] r.images@[i],
                images_in_order(image_ids@.map_values(|s: String| s@), images@)[i],
            ),
{
    let ghost ids = image_ids@.map_values(|s: String| s@);
    let mut out: Vec<ProjectRenderingImageResponse> = Vec::new();
    let mut k: usize = 0;
    while k < image_ids.len()
        invariant
            ids == image_ids@.map_values(|s: String| s@),
            k <= image_ids@.len(),
            out@.len() == images_in_order(ids.subrange(0, k as int), images@).len(),
            forall|i: int|
                0 <= i < out@.len() ==> reports_image(
                    #[trigger] out@[i],
                    images_in_order(ids.subrange(0, k as int), images@)[i],
                ),
        decreases image_ids@.len() - k,
    {
        let ghost prefix = ids.subrange(0, k as int);
        let ghost next = ids.subrange(0, k + 1);
        proof {
            assert(next.drop_last() =~= prefix);
            assert(next.last() == image_ids@[k as int]@);
        }
        match find_image(images, image_ids[k].as_str()) {
            Some(j) => {
                let ghost before = out@;
                out.push(ProjectRenderingImageResponse::from_image(&images[j]));
                proof {
                    assert forall|i: int| 0 <= i < out@.len() implies reports_image(
                        #[trigger] out@[i],
                        images_in_order(next, images@)[i],
                    ) by {
                        if i < before.len() {
                            assert(out@[i] == before[i]);
                        }
                    }
                }
            },
            None => {},
        }
        k = k + 1;
    }
    proof {
        assert(ids.subrange(0, image_ids@.len() as int) =~= ids);
    }
    ProjectRenderingsResponse::new(out)
}

/// The resized-image address of an asset address: production and development
/// asset hosts become their resizing hosts, and WebP output at `width` is
/// requested.
pub open spec fn converted_url(url: Seq<char>, width: u32) -> Seq<char> {
    replace_all(replace_all(url, PROD_CDN_URL@, PROD_I_URL@), DEV_CDN_URL@, DEV_I_URL@) + "?f=webp&w="@ + decimal(
        width as nat,
    )
}

/// The asset address behind a resized-image address: resizing hosts become
/// asset hosts again and the query is dropped.
pub open spec fn recovered_url(url: Seq<char>) -> Seq<char> {
    before_first(replace_all(replace_all(url, PROD_I_URL@, PROD_CDN_URL@), DEV_I_URL@, DEV_CDN_URL@), '?')
}

/// Turns an asset address into its resized-image address at `width` pixels.
pub fn convert_image_url(image_url: &str, width: u32) -> (r: String)
    ensures
        r@ == converted_url(image_url@, width),
{
    let prod = replace_str(image_url, PROD_CDN_URL, PROD_I_URL);
    let mut out = replace_str(prod.as_str(), DEV_CDN_URL, DEV_I_URL);
    out.append("?f=webp&w=");
    push_decimal(&mut out, width);
    out
}

/// Turns a resized-image address back into its asset address.
pub fn recover_image_url(converted: &str) -> (r: String)
    ensures
        r@ == recovered_url(converted@),
{
    let prod = replace_str(converted, PROD_I_URL, PROD_CDN_URL);
    let dev = replace_str(prod.as_str(), DEV_I_URL, DEV_CDN_URL);
    prefix_before(dev.as_str(), '?')
}

/// The positions whose flag is `want`, in order.
pub open spec fn positions_with(flags: Seq<bool>, want: bool) -> Seq<int>
    decreases flags.len(),
{
    if flags.len() == 0 {
        Seq::empty()
    } else if flags.last() == want {
        positions_with(flags.drop_last(), want).push(flags.len() - 1)
    } else {
        positions_with(flags.drop_last(), want)
    }
}

fn collect_positions(flags: &Vec<bool>, want: bool, out: &mut Vec<usize>)
    ensures
        final(out)@.map_values(|i: usize| i as int) == old(out)@.map_values(|i: usize| i as int) + positions_with(
            flags@,
            want,
        ),
{
    let ghost start = out@.map_values(|i: usize| i as int);
    let mut i: usize = 0;
    while i < flags.len()
        invariant
            i <= flags@.len(),
            start == old(out)@.map_values(|i: usize| i as int),
            out@.map_values(|i: usize| i as int) == start + positions_with(flags@.subrange(0, i as int), want),
        decreases flags@.len() - i,
    {
        let ghost prefix = flags@.subrange(0, i + 1);
        proof {
            assert(prefix.drop_last() =~= flags@.subrange(0, i as int));
            assert(prefix.last() == flags@[i as int]);
        }
        let ghost before = out@;
        if flags[i] == want {
            out.push(i);
            proof {
                assert(out@ == before.push(i));
                assert(out@.map_values(|i: usize| i as int) =~= before.map_values(|i: usize| i as int).push(i as int));
                assert(positions_with(prefix, want) == positions_with(flags@.subrange(0, i as int), want).push(i as int));
                assert(out@.map_values(|i: usize| i as int) =~= start + positions_with(prefix, want));
            }
        } else {
            proof {
                assert(positions_with(prefix, want) == positions_with(flags@.subrange(0, i as int), want));
            }
        }
        i = i + 1;
    }
    proof {
        assert(flags@.subrange(0, flags@.len() as int) =~= flags@);
    }
}

/// The order in which results are reported: those with images first, then
/// those without, each group keeping its order.
pub fn order_with_images_first(has_images: &Vec<bool>) -> (r: Vec<usize>)
    ensures
        r@.map_values(|i: usize| i as int) == positions_with(has_images@, true) + positions_with(has_images@, false),
{
    let mut out: Vec<usize> = Vec::new();
    proof {
        assert(out@.map_values(|i: usize| i as int) =~= Seq::<int>::empty());
    }
    collect_positions(has_images, true, &mut out);
    proof {
        assert(Seq::<int>::empty() + positions_with(has_images@, true) =~= positions_with(has_images@, true));
    }
    collect_positions(has_images, false, &mut out);
    out
}

} // verus!
