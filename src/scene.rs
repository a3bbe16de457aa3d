use vstd::prelude::*;

verus! {

/// Width of the rendered image, in pixels.
pub const WIDTH: u32 = 1000;

/// Height of the rendered image, in pixels.
pub const HEIGHT: u32 = 1000;

/// The first component of every primary ray direction: the distance of the
/// pixel grid in front of the eye.
pub const FORWARD: i64 = 1000;

/// How far below the sphere centre the light stands, along the third axis.
pub const LIGHT_DEPTH: i64 = 150000;

/// A point or displacement with integer coordinates.
#[derive(Clone, Copy, Debug, PartialEq, Eq, Structural)]
pub struct Point3(pub i64, pub i64, pub i64);

impl Point3 {
    /// Component-wise sum.
    pub fn plus(&self, o: &Point3) -> (r: Point3)
        requires
            i64::MIN <= self.0 + o.0 <= i64::MAX,
            i64::MIN <= self.1 + o.1 <= i64::MAX,
            i64::MIN <= self.2 + o.2 <= i64::MAX,
        ensures
            r.0 == self.0 + o.0,
            r.1 == self.1 + o.1,
            r.2 == self.2 + o.2,
    {
        Point3(self.0 + o.0, self.1 + o.1, self.2 + o.2)
    }
}

/// The fixed scene: one sphere, one plane `dot(normal, p) + offset == 0`,
/// and a point light.
#[derive(Clone, Copy, Debug, PartialEq, Eq, Structural)]
pub struct Scene {
    pub sphere_center: Point3,
    pub sphere_radius: i64,
    pub plane_normal: Point3,
    pub plane_offset: i64,
    pub light: Point3,
}

/// The scene rendered into an image `height` pixels high: the plane lies
/// half the image height below the eye, and the light stands far below the
/// sphere centre.
pub fn fixed_scene(height: u32) -> (s: Scene)
    ensures
        s.sphere_center == Point3(1400, 0, 200),
        s.sphere_radius == 100,
        s.plane_normal == Point3(0, 0, 1),
        s.plane_offset == height / 2,
        s.light.0 == s.sphere_center.0,
        s.light.1 == s.sphere_center.1,
        s.light.2 == s.sphere_center.2 - LIGHT_DEPTH,
{
    let center = Point3(1400, 0, 200);
    let light = center.plus(&Point3(0, 0, -LIGHT_DEPTH));
    Scene {
        sphere_center: center,
        sphere_radius: 100,
        plane_normal: Point3(0, 0, 1),
        plane_offset: (height / 2) as i64,
        light,
    }
}

/// The direction of the primary ray through the pixel at `row`, `col` of a
/// `width` by `height` image. Rows run along the third axis upwards from
/// `-height / 2`; columns along the second axis downwards from
/// `width / 2 - 1`. Every primary ray starts at the origin.
pub open spec fn pixel_direction_spec(width: nat, height: nat, row: nat, col: nat) -> Point3 {
    Point3(
        FORWARD,
        ((width / 2) as int - 1 - col) as i64,
        (row as int - (height / 2) as int) as i64,
    )
}

/// The direction of the primary ray through one pixel.
pub fn pixel_direction(width: u32, height: u32, row: u32, col: u32) -> (d: Point3)
    requires
        row < height,
        col < width,
    ensures
        d == pixel_direction_spec(width as nat, height as nat, row as nat, col as nat),
{
    Point3(
        FORWARD,
        (width / 2) as i64 - 1 - col as i64,
        row as i64 - (height / 2) as i64,
    )
}

proof fn lemma_index_below(r: nat, c: nat, rows: nat, width: nat)
    requires
        r < rows,
        c < width,
    ensures
        r * width + c < rows * width,
{
    assert(r * width + c < rows * width) by (nonlinear_arith)
        requires
            r < rows,
            c < width,
    ;
}

/// The primary ray directions of a whole image in scan order: row by row,
/// and within a row column by column, so that pixel `row`, `col` sits at
/// index `row * width + col`.
pub fn primary_directions(width: u32, height: u32) -> (v: Vec<Point3>)
    requires
        width * height <= usize::MAX,
    ensures
        v@.len() == width * height,
        forall|row: nat, col: nat|
            row < height && col < width ==> #[trigger] v@[(row * width + col) as int]
                == pixel_direction_spec(width as nat, height as nat, row, col),
{
    let mut v: Vec<Point3> = Vec::new();
    let mut row: u32 = 0;
    while row < height
        invariant
            width * height <= usize::MAX,
            row <= height,
            v@.len() == row * width,
            forall|r: nat, c: nat|
                r < row && c < width ==> #[trigger] v@[(r * width + c) as int]
                    == pixel_direction_spec(width as nat, height as nat, r, c),
        decreases height - row,
    {
        let mut col: u32 = 0;
        while col < width
            invariant
                width * height <= usize::MAX,
                row < height,
                col <= width,
                v@.len() == row * width + col,
                forall|r: nat, c: nat|
                    r < row && c < width ==> #[trigger] v@[(r * width + c) as int]
                        == pixel_direction_spec(width as nat, height as nat, r, c),
                forall|c: nat|
                    c < col ==> #[trigger] v@[(row * width + c) as int]
                        == pixel_direction_spec(width as nat, height as nat, row as nat, c),
            decreases width - col,
        {
            let d = pixel_direction(width, height, row, col);
            let ghost prev = v@;
            v.push(d);
            proof {
                assert forall|r: nat, c: nat|
                    r < row && c < width implies #[trigger] v@[(r * width + c) as int]
                    == pixel_direction_spec(width as nat, height as nat, r, c) by {
                    lemma_index_below(r, c, row as nat, width as nat);
                    assert(prev[(r * width + c) as int] == pixel_direction_spec(
                        width as nat,
                        height as nat,
                        r,
                        c,
                    ));
                }
                assert forall|c: nat| c < col + 1 implies #[trigger] v@[(row * width + c) as int]
                    == pixel_direction_spec(width as nat, height as nat, row as nat, c) by {
                    if c < col {
                        assert(prev[(row * width + c) as int] == pixel_direction_spec(
                            width as nat,
                            height as nat,
                            row as nat,
                            c,
                        ));
                    }
                }
            }
            col = col + 1;
        }
        proof {
            assert((row + 1) * width == row * width + width) by (nonlinear_arith);
            assert forall|r: nat, c: nat|
                r < row + 1 && c < width implies #[trigger] v@[(r * width + c) as int]
                == pixel_direction_spec(width as nat, height as nat, r, c) by {
                lemma_index_below(r, c, (row + 1) as nat, width as nat);
                if r == row {
                    assert(v@[(row * width + c) as int] == pixel_direction_spec(
                        width as nat,
                        height as nat,
                        row as nat,
                        c,
                    ));
                }
            }
        }
        row = row + 1;
    }
    assert(row * width == width * height) by (nonlinear_arith)
        requires
            row == height,
    ;
    v
}

} // verus!
