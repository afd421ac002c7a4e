use vstd::prelude::*;
use vstd::multiset::Multiset;
use crate::canvas::Canvas;
use crate::intersection::{
    first_hit, insert_all, insert_sorted, rank, Intersection, IntersectionCollection,
};

verus! {

/// How many times a ray may bounce between mirrors when a colour is asked for
/// without an explicit depth.
pub const MAX_REFLECTION_DEPTH: u32 = 5;

/// The depth left for a reflected ray cast from a hit, or `None` when no
/// reflected ray is cast: either no depth is left or the surface does not
/// reflect.
pub open spec fn next_depth_spec(remaining: nat, reflective: bool) -> Option<nat> {
    if remaining == 0 || !reflective {
        None
    } else {
        Some((remaining - 1) as nat)
    }
}

/// Decides whether a reflected ray is cast, and with how much depth left.
pub fn next_reflection_depth(remaining: u32, reflective: bool) -> (r: Option<u32>)
    ensures
        r is None <==> next_depth_spec(remaining as nat, reflective) is None,
        r matches Some(n) ==> next_depth_spec(remaining as nat, reflective) == Some(n as nat),
{
    if remaining == 0 || !reflective {
        None
    } else {
        Some(remaining - 1)
    }
}

/// The number of reflected rays cast in a row from a starting depth when every
/// surface met reflects (two mirrors facing each other).
pub open spec fn bounces(remaining: nat) -> nat
    decreases remaining,
{
    match next_depth_spec(remaining, true) {
        Some(n) => 1 + bounces(n),
        None => 0,
    }
}

/// Between two facing mirrors a ray is reflected exactly as many times as the
/// depth it starts with, and no more: the recursion ends.
pub proof fn lemma_reflection_terminates(remaining: nat)
    ensures
        bounces(remaining) == remaining,
    decreases remaining,
{
    if remaining > 0 {
        lemma_reflection_terminates((remaining - 1) as nat);
    }
}

/// What the scene-wide computations ask of a scene: its objects' own
/// intersections and the floating-point shading around a hit. The methods
/// promise nothing; the functions below state their results in terms of what
/// these methods returned for the arguments handed to them (`call_ensures`).
pub trait Scene {
    type Ray;

    type Hit;

    type Colour;

    /// The colour of no light: seen where a ray meets nothing, and reflected
    /// by a surface that does not reflect.
    fn black(&self) -> Self::Colour;

    /// The sum of two colours, channel by channel.
    fn add(&self, a: Self::Colour, b: Self::Colour) -> Self::Colour;

    /// The number of objects; their handles are the indices below it.
    fn object_count(&self) -> usize;

    /// Where a ray meets one object, each intersection tagged with the
    /// object's handle.
    fn intersect_object(&self, object: usize, ray: &Self::Ray) -> IntersectionCollection;

    /// The state of a hit: position, eye and normal vectors, and the probe
    /// origin moved off the surface.
    fn prepare(&self, hit: &Intersection, ray: &Self::Ray) -> Self::Hit;

    /// A ray from a hit toward the light, and the distance to the light as the
    /// bit pattern of a single-precision value.
    fn shadow_probe(&self, hit: &Self::Hit) -> (Self::Ray, u32);

    /// The locally lit colour of the surface at a hit.
    fn surface_colour(&self, hit: &Self::Hit, in_shadow: bool) -> Self::Colour;

    /// Whether the surface at a hit reflects at all.
    fn reflects(&self, hit: &Self::Hit) -> bool;

    /// The ray reflected about the surface normal at a hit.
    fn reflected_ray(&self, hit: &Self::Hit) -> Self::Ray;

    /// The part of what the reflected ray saw that the surface passes on:
    /// clamped to the unit range and scaled by the surface's reflectivity.
    fn reflection_share(&self, hit: &Self::Hit, seen: Self::Colour) -> Self::Colour;
}

/// The intersection lists of a scene's objects merged, in object order, by
/// inserting each list's entries in turn.
pub open spec fn merged(parts: Seq<IntersectionCollection>) -> Seq<Intersection>
    decreases parts.len(),
{
    if parts.len() == 0 {
        Seq::empty()
    } else {
        insert_all(merged(parts.drop_last()), parts.last()@)
    }
}

/// `h` is where `ray` meets the scene: the scene reported `parts.len()`
/// objects and, for each handle below it, that object's intersections, and `h`
/// merges them all.
pub open spec fn scene_hits_from<S: Scene>(
    scene: &S,
    ray: &S::Ray,
    parts: Seq<IntersectionCollection>,
    h: Seq<Intersection>,
) -> bool {
    &&& call_ensures(S::object_count, (scene,), parts.len() as usize)
    &&& parts.len() <= usize::MAX
    &&& forall|k: int|
        0 <= k < parts.len() ==> call_ensures(
            S::intersect_object,
            (scene, k as usize, ray),
            #[trigger] parts[k],
        )
    &&& h == merged(parts)
}

/// `h` is where `ray` meets the scene, for what the scene reports.
pub open spec fn scene_hits<S: Scene>(scene: &S, ray: &S::Ray, h: Seq<Intersection>) -> bool {
    exists|parts: Seq<IntersectionCollection>| #[trigger] scene_hits_from(scene, ray, parts, h)
}

/// `blocked` tells whether the nearest hit along `probe` lies strictly nearer
/// than the light, for what the scene reports.
pub open spec fn shadow_of<S: Scene>(
    scene: &S,
    probe: &S::Ray,
    light_distance_bits: u32,
    blocked: bool,
) -> bool {
    exists|h: Seq<Intersection>|
        #[trigger] scene_hits(scene, probe, h) && blocked == (first_hit(h) matches Some(i) && h[i].rank()
            < rank(light_distance_bits))
}

/// `c` is the colour seen along `ray` with `depth` reflections left: black
/// where the ray has no hit, else the colour at its prepared hit.
pub open spec fn seen<S: Scene>(scene: &S, ray: &S::Ray, depth: nat, c: S::Colour) -> bool
    decreases depth, 3nat,
{
    exists|h: Seq<Intersection>|
        #[trigger] scene_hits(scene, ray, h) && match first_hit(h) {
            None => call_ensures(S::black, (scene,), c),
            Some(i) => exists|hit: S::Hit|
                #[trigger] call_ensures(S::prepare, (scene, &h[i], ray), hit) && shaded(
                    scene,
                    &hit,
                    depth,
                    c,
                ),
        }
}

/// `c` is the colour at a hit: the scene's sum of the surface colour, lit with
/// the shadow flag of the probe toward the light, and the reflected colour.
pub open spec fn shaded<S: Scene>(scene: &S, hit: &S::Hit, depth: nat, c: S::Colour) -> bool
    decreases depth, 2nat,
{
    exists|probe: (S::Ray, u32), blocked: bool, surface: S::Colour, reflected: S::Colour|
        {
            &&& #[trigger] call_ensures(S::shadow_probe, (scene, hit), probe)
            &&& shadow_of(scene, &probe.0, probe.1, blocked)
            &&& #[trigger] call_ensures(S::surface_colour, (scene, hit, blocked), surface)
            &&& reflected_of(scene, hit, depth, reflected)
            &&& #[trigger] call_ensures(S::add, (scene, surface, reflected), c)
        }
}

/// `c` is the reflected colour at a hit: black where no depth is left or the
/// surface does not reflect; else the surface's share of the colour seen along
/// the reflected ray with one reflection less.
pub open spec fn reflected_of<S: Scene>(scene: &S, hit: &S::Hit, depth: nat, c: S::Colour) -> bool
    decreases depth, 1nat,
{
    exists|reflects: bool|
        #[trigger] call_ensures(S::reflects, (scene, hit), reflects) && match next_depth_spec(
            depth,
            reflects,
        ) {
            None => call_ensures(S::black, (scene,), c),
            Some(n) => exists|ray: S::Ray, seen_colour: S::Colour|
                {
                    &&& #[trigger] call_ensures(S::reflected_ray, (scene, hit), ray)
                    &&& seen(scene, &ray, n, seen_colour)
                    &&& #[trigger] call_ensures(S::reflection_share, (scene, hit, seen_colour), c)
                },
        }
}

/// Every entry of every object's list, counted with repetition.
pub open spec fn all_entries(parts: Seq<IntersectionCollection>) -> Multiset<Intersection>
    decreases parts.len(),
{
    if parts.len() == 0 {
        Multiset::empty()
    } else {
        all_entries(parts.drop_last()).add(parts.last()@.to_multiset())
    }
}

proof fn lemma_insert_sorted_entries(s: Seq<Intersection>, x: Intersection)
    ensures
        insert_sorted(s, x).to_multiset() == s.to_multiset().insert(x),
    decreases s.len(),
{
    broadcast use vstd::seq_lib::group_to_multiset_ensures;

    if s.len() > 0 {
        assert(s =~= s.drop_last().push(s.last()));
        if s.last().rank() > x.rank() {
            lemma_insert_sorted_entries(s.drop_last(), x);
        }
    }
}

proof fn lemma_insert_all_entries(s: Seq<Intersection>, r: Seq<Intersection>)
    ensures
        insert_all(s, r).to_multiset() == s.to_multiset().add(r.to_multiset()),
    decreases r.len(),
{
    broadcast use vstd::seq_lib::group_to_multiset_ensures;

    if r.len() > 0 {
        lemma_insert_all_entries(s, r.drop_last());
        lemma_insert_sorted_entries(insert_all(s, r.drop_last()), r.last());
        assert(r =~= r.drop_last().push(r.last()));
        assert(insert_all(s, r).to_multiset() =~= s.to_multiset().add(r.to_multiset()));
    }
}

/// The scene's intersections hold every object's intersections, none lost and
/// none added; a scene without objects has none.
pub proof fn lemma_scene_hits_keep_every_entry<S: Scene>(
    scene: &S,
    ray: &S::Ray,
    parts: Seq<IntersectionCollection>,
    h: Seq<Intersection>,
)
    requires
        scene_hits_from(scene, ray, parts, h),
    ensures
        h.to_multiset() == all_entries(parts),
        parts.len() == 0 ==> h.len() == 0,
{
    lemma_merged_entries(parts);
}

proof fn lemma_merged_entries(parts: Seq<IntersectionCollection>)
    ensures
        merged(parts).to_multiset() == all_entries(parts),
    decreases parts.len(),
{
    broadcast use vstd::seq_lib::group_to_multiset_ensures;

    if parts.len() > 0 {
        lemma_merged_entries(parts.drop_last());
        lemma_insert_all_entries(merged(parts.drop_last()), parts.last()@);
    }
}

/// With no reflections left the reflected colour is black, whatever the
/// surface.
pub proof fn lemma_no_depth_reflects_black<S: Scene>(scene: &S, hit: &S::Hit, c: S::Colour)
    requires
        reflected_of(scene, hit, 0, c),
    ensures
        call_ensures(S::black, (scene,), c),
{
}

/// A surface that does not reflect gives black as its reflected colour.
pub proof fn lemma_matte_reflects_black<S: Scene>(scene: &S, hit: &S::Hit, depth: nat, c: S::Colour)
    requires
        forall|b: bool| #[trigger] call_ensures(S::reflects, (scene, hit), b) ==> !b,
        reflected_of(scene, hit, depth, c),
    ensures
        call_ensures(S::black, (scene,), c),
{
}

/// A ray that meets nothing in front of it is seen as black.
pub proof fn lemma_miss_is_black<S: Scene>(scene: &S, ray: &S::Ray, depth: nat, c: S::Colour)
    requires
        forall|h: Seq<Intersection>| #[trigger] scene_hits(scene, ray, h) ==> first_hit(h) is None,
        seen(scene, ray, depth, c),
    ensures
        call_ensures(S::black, (scene,), c),
{
}

/// Where a ray meets the scene: every object's intersections merged into one
/// collection, ascending by `t`, in object order.
pub fn intersect<S: Scene>(scene: &S, ray: &S::Ray) -> (r: IntersectionCollection)
    ensures
        r.well_formed(),
        scene_hits(scene, ray, r@),
{
    let mut all = IntersectionCollection::new();
    let count = scene.object_count();
    let ghost mut parts: Seq<IntersectionCollection> = Seq::empty();
    let mut object: usize = 0;
    while object < count
        invariant
            object <= count,
            call_ensures(S::object_count, (scene,), count),
            parts.len() == object,
            forall|k: int|
                0 <= k < parts.len() ==> call_ensures(
                    S::intersect_object,
                    (scene, k as usize, ray),
                    #[trigger] parts[k],
                ),
            all.well_formed(),
            all@ == merged(parts),
        decreases count - object,
    {
        let part = scene.intersect_object(object, ray);
        let ghost before = parts;
        proof {
            parts = parts.push(part);
            assert(parts.drop_last() =~= before);
        }
        all.merge(part);
        object = object + 1;
    }
    assert(scene_hits_from(scene, ray, parts, all@));
    all
}

/// Whether the nearest hit along the probe ray lies strictly nearer than the
/// light.
pub fn is_shadowed<S: Scene>(scene: &S, probe: &S::Ray, light_distance_bits: u32) -> (r: bool)
    ensures
        shadow_of(scene, probe, light_distance_bits, r),
{
    let all = intersect(scene, probe);
    all.hit_before(light_distance_bits)
}

/// The colour seen along a ray, following reflections while depth remains:
/// black where the ray meets nothing, else the colour at its hit.
pub fn colour_at_depth<S: Scene>(scene: &S, ray: &S::Ray, remaining: u32) -> (r: S::Colour)
    ensures
        seen(scene, ray, remaining as nat, r),
    decreases remaining, 3nat,
{
    let all = intersect(scene, ray);
    match all.hit() {
        None => {
            let r = scene.black();
            assert(scene_hits(scene, ray, all@));
            r
        },
        Some(hit) => {
            let computations = scene.prepare(hit, ray);
            let r = shade_hit(scene, &computations, remaining);
            assert(scene_hits(scene, ray, all@));
            r
        },
    }
}

/// The colour at a hit: the lit surface, shadowed where the light is blocked,
/// plus the reflected colour.
pub fn shade_hit<S: Scene>(scene: &S, hit: &S::Hit, remaining: u32) -> (r: S::Colour)
    ensures
        shaded(scene, hit, remaining as nat, r),
    decreases remaining, 2nat,
{
    let probe = scene.shadow_probe(hit);
    let shadowed = is_shadowed(scene, &probe.0, probe.1);
    let surface = scene.surface_colour(hit, shadowed);
    let reflected = reflected_colour(scene, hit, remaining);
    scene.add(surface, reflected)
}

/// Black where no depth remains or the surface does not reflect; else the
/// surface's share of what the reflected ray sees with one level less depth.
pub fn reflected_colour<S: Scene>(scene: &S, hit: &S::Hit, remaining: u32) -> (r: S::Colour)
    ensures
        reflected_of(scene, hit, remaining as nat, r),
    decreases remaining, 1nat,
{
    let reflects = scene.reflects(hit);
    match next_reflection_depth(remaining, reflects) {
        None => scene.black(),
        Some(next) => {
            let reflected_ray = scene.reflected_ray(hit);
            let seen_colour = colour_at_depth(scene, &reflected_ray, next);
            scene.reflection_share(hit, seen_colour)
        },
    }
}

/// The colour seen along a ray, with the default reflection depth.
pub fn colour_at<S: Scene>(scene: &S, ray: &S::Ray) -> (r: S::Colour)
    ensures
        seen(scene, ray, MAX_REFLECTION_DEPTH as nat, r),
{
    colour_at_depth(scene, ray, MAX_REFLECTION_DEPTH)
}

/// Where a camera sends the ray through the centre of each pixel.
pub trait PixelRays<R> {
    fn ray_for_pixel(&self, x: usize, y: usize) -> R;
}

/// `c` is the colour of pixel `(x, y)`: the colour seen, at the default depth,
/// along the ray the camera gives for it.
pub open spec fn pixel_colour<S: Scene, V: PixelRays<S::Ray>>(
    camera: &V,
    scene: &S,
    x: usize,
    y: usize,
    c: S::Colour,
) -> bool {
    exists|ray: S::Ray|
        #[trigger] call_ensures(V::ray_for_pixel, (camera, x, y), ray) && seen(
            scene,
            &ray,
            MAX_REFLECTION_DEPTH as nat,
            c,
        )
}

/// A canvas of the given size holding, for every pixel, the colour seen along
/// the camera's ray through it.
pub fn render<S: Scene, V: PixelRays<S::Ray>>(
    camera: &V,
    scene: &S,
    width: usize,
    height: usize,
    blank: S::Colour,
) -> (r: Canvas<S::Colour>) where S::Colour: Copy
    requires
        width * height <= usize::MAX,
    ensures
        r.width == width,
        r.height == height,
        r.well_formed(),
        forall|x: int, y: int|
            0 <= x < width && 0 <= y < height ==> pixel_colour(
                camera,
                scene,
                x as usize,
                y as usize,
                #[trigger] r.at(x, y),
            ),
{
    let mut canvas = Canvas::new(width, height, blank);
    let mut y: usize = 0;
    while y < height
        invariant
            y <= height,
            canvas.width == width,
            canvas.height == height,
            canvas.well_formed(),
            forall|i: int, j: int|
                0 <= i < width && 0 <= j < y ==> pixel_colour(
                    camera,
                    scene,
                    i as usize,
                    j as usize,
                    #[trigger] canvas.at(i, j),
                ),
        decreases height - y,
    {
        let mut x: usize = 0;
        while x < width
            invariant
                x <= width,
                y < height,
                canvas.width == width,
                canvas.height == height,
                canvas.well_formed(),
                forall|i: int, j: int|
                    0 <= i < width && 0 <= j < y ==> pixel_colour(
                        camera,
                        scene,
                        i as usize,
                        j as usize,
                        #[trigger] canvas.at(i, j),
                    ),
                forall|i: int|
                    0 <= i < x ==> pixel_colour(
                        camera,
                        scene,
                        i as usize,
                        y,
                        #[trigger] canvas.at(i, y as int),
                    ),
            decreases width - x,
        {
            let ray = camera.ray_for_pixel(x, y);
            let colour = colour_at(scene, &ray);
            assert(pixel_colour(camera, scene, x, y, colour));
            canvas.write_pixel(x, y, colour);
            x = x + 1;
        }
        y = y + 1;
    }
    canvas
}

} // verus!
