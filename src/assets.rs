use vstd::prelude::*;

use crate::text::{decimal, push_decimal};


verus! {

/// An object listed in the asset bucket: its key and the time it was last
/// modified, when the listing gives them.
#[derive(Clone, Debug)]
pub struct StoredObject {
    pub key: Option<String>,
    pub last_modified: Option<i64>,
}

/// The listing gives both the key and the modification time of the object.
pub open spec fn complete(o: StoredObject) -> bool {
    o.key is Some && o.last_modified is Some
}

/// Position `i` holds the most recently modified complete object, and the
/// first such one when several share that time.
pub open spec fn is_latest(objects: Seq<StoredObject>, i: int) -> bool {
    &&& 0 <= i < objects.len()
    &&& complete(objects[i])
    &&& forall|j: int|
        0 <= j < objects.len() && complete(#[trigger] objects[j]) ==> objects[j].last_modified->0
            <= objects[i].last_modified->0
    &&& forall|j: int|
        0 <= j < i && complete(#[trigger] objects[j]) ==> objects[j].last_modified->0 < objects[i].last_modified->0
}

/// Finds the most recently modified object that has both a key and a time.
pub fn latest_object(objects: &Vec<StoredObject>) -> (r: Option<usize>)
    ensures
        r is None <==> forall|j: int| 0 <= j < objects@.len() ==> !complete(#[trigger] objects@[j]),
        r is Some ==> is_latest(objects@, r->0 as int),
{
    let mut best: Option<usize> = None;
    let mut best_time: i64 = 0;
    let mut i: usize = 0;
    while i < objects.len()
        invariant
            i <= objects@.len(),
            best is None ==> forall|j: int| 0 <= j < i ==> !complete(#[trigger] objects@[j]),
            best is Some ==> {
                let b = best->0 as int;
                &&& b < i
                &&& complete(objects@[b])
                &&& objects@[b].last_modified->0 == best_time
                &&& forall|j: int| 0 <= j < i && complete(#[trigger] objects@[j]) ==> objects@[j].last_modified->0 <= best_time
                &&& forall|j: int| 0 <= j < b && complete(#[trigger] objects@[j]) ==> objects@[j].last_modified->0 < best_time
            },
        decreases objects@.len() - i,
    {
        let o = &objects[i];
        if o.key.is_some() {
            if let Some(t) = o.last_modified {
                let newer = match best {
                    None => true,
                    Some(_) => best_time < t,
                };
                if newer {
                    best = Some(i);
                    best_time = t;
                }
            }
        }
        i = i + 1;
    }
    best
}

/// `s` without trailing `c`s.
pub open spec fn strip_trailing(s: Seq<char>, c: char) -> Seq<char>
    decreases s.len(),
{
    if s.len() > 0 && s.last() == c {
        strip_trailing(s.drop_last(), c)
    } else {
        s
    }
}

/// `s` without leading `c`s.
pub open spec fn strip_leading(s: Seq<char>, c: char) -> Seq<char>
    decreases s.len(),
{
    if s.len() > 0 && s[0] == c {
        strip_leading(s.drop_first(), c)
    } else {
        s
    }
}

/// The address of an object under a host: the two joined by exactly one
/// slash.
pub open spec fn object_url(base: Seq<char>, key: Seq<char>) -> Seq<char> {
    strip_trailing(base, '/') + seq!['/'] + strip_leading(key, '/')
}

/// `s` without its trailing slashes.
pub fn without_trailing_slashes(s: &str) -> (r: String)
    ensures
        r@ == strip_trailing(s@, '/'),
{
    let n = s.unicode_len();
    let mut end: usize = n;
    proof {
        assert(s@.subrange(0, n as int) =~= s@);
    }
    while end > 0 && s.get_char(end - 1) == '/'
        invariant
            n == s@.len(),
            end <= n,
            strip_trailing(s@, '/') == strip_trailing(s@.subrange(0, end as int), '/'),
        decreases end,
    {
        proof {
            let t = s@.subrange(0, end as int);
            assert(t.last() == '/');
            assert(t.drop_last() =~= s@.subrange(0, end - 1));
        }
        end = end - 1;
    }
    proof {
        let t = s@.subrange(0, end as int);
        assert(!(t.len() > 0 && t.last() == '/'));
    }
    s.substring_char(0, end).to_owned()
}

/// `s` without its leading slashes.
pub fn without_leading_slashes(s: &str) -> (r: &str)
    ensures
        r@ == strip_leading(s@, '/'),
{
    let m = s.unicode_len();
    let mut start: usize = 0;
    proof {
        assert(s@.subrange(0, m as int) =~= s@);
    }
    while start < m && s.get_char(start) == '/'
        invariant
            m == s@.len(),
            start <= m,
            strip_leading(s@, '/') == strip_leading(s@.subrange(start as int, m as int), '/'),
        decreases m - start,
    {
        proof {
            let t = s@.subrange(start as int, m as int);
            assert(t[0] == '/');
            assert(t.drop_first() =~= s@.subrange(start + 1, m as int));
        }
        start = start + 1;
    }
    proof {
        let t = s@.subrange(start as int, m as int);
        assert(!(t.len() > 0 && t[0] == '/'));
    }
    s.substring_char(start, m)
}

/// Joins a host and an object key with exactly one slash.
pub fn cdn_object_url(base: &str, key: &str) -> (r: String)
    ensures
        r@ == object_url(base@, key@),
{
    let mut out = without_trailing_slashes(base);
    out.append("/");
    out.append(without_leading_slashes(key));
    proof {
        reveal_strlit("/");
    }
    out
}

/// A signed integer in decimal, with a leading minus when negative.
pub open spec fn signed_decimal(v: int) -> Seq<char> {
    if v < 0 {
        seq!['-'] + decimal((-v) as nat)
    } else {
        decimal(v as nat)
    }
}

fn push_signed_decimal(out: &mut String, v: i32)
    ensures
        final(out)@ == old(out)@ + signed_decimal(v as int),
{
    if v < 0 {
        out.append("-");
        proof {
            reveal_strlit("-");
        }
        let magnitude: u32 = (-(v as i64)) as u32;
        push_decimal(out, magnitude);
        proof {
            assert(old(out)@ + seq!['-'] + decimal(magnitude as nat) =~= old(out)@ + signed_decimal(v as int));
        }
    } else {
        push_decimal(out, v as u32);
    }
}

/// The address of a rendering at a given size:
/// `{host}/images/{id}/{width}x{height}/{id}.png`.
pub open spec fn rendering_url_of(base: Seq<char>, image_id: Seq<char>, width: int, height: int) -> Seq<char> {
    strip_trailing(base, '/') + "/images/"@ + image_id + seq!['/'] + signed_decimal(width) + seq!['x']
        + signed_decimal(height) + seq!['/'] + image_id + ".png"@
}

/// Builds the address of a rendering at a given size.
pub fn rendering_image_url(base: &str, image_id: &str, width: i32, height: i32) -> (r: String)
    ensures
        r@ == rendering_url_of(base@, image_id@, width as int, height as int),
{
    let mut out = without_trailing_slashes(base);
    out.append("/images/");
    out.append(image_id);
    out.append("/");
    push_signed_decimal(&mut out, width);
    out.append("x");
    push_signed_decimal(&mut out, height);
    out.append("/");
    out.append(image_id);
    out.append(".png");
    proof {
        reveal_strlit("/");
        reveal_strlit("x");
    }
    out
}

/// The key of a project's floor-plan document.
pub open spec fn floorplan_key_of(project_id: Seq<char>) -> Seq<char> {
    "projects/"@ + project_id + "/floorplans.json"@
}

/// The key of a project's floor-plan document in the asset bucket.
pub fn floorplan_key(project_id: &str) -> (r: String)
    ensures
        r@ == floorplan_key_of(project_id@),
{
    let mut out = "projects/".to_owned();
    out.append(project_id);
    out.append("/floorplans.json");
    out
}

} // verus!
