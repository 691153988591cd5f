//! The camera: from a view of the scene to rays, and from rays to colours.

use crate::canvas::canvas_height;
use crate::canvas::canvas_pixels;
use crate::canvas::canvas_width;
use crate::canvas::lemma_pixel_index;
use crate::canvas::lemma_pixel_index_injective;
use crate::canvas::pixel_at;
use crate::canvas::pixel_index;
use crate::canvas::Canvas;
use crate::colour::get_colour;
use crate::colour::lemma_channel_is_byte;
use crate::colour::spec_channel;
use crate::hittable::HitRecord;
use crate::hittable::Hittable;
use crate::interval::Interval;
use crate::material::is_outcome;
use crate::material::Draw;
use crate::material::Material;
use crate::ray::Ray;
use crate::scalar::mul_raw;
use crate::scalar::trunc_div;
use crate::scalar::Scalar;
use crate::scalar::ONE_RAW;
use crate::utility;
use crate::vector::Vector;
use vstd::prelude::*;

verus! {

/// The largest width and height of an image, in pixels: the largest
/// integer that a scalar holds.
pub const MAX_IMAGE_SIDE: usize = 2147483647;

/// Why a camera cannot be set up.
#[derive(Clone, Copy, Debug, PartialEq, Eq, Structural)]
pub enum CameraError {
    /// The image has no columns.
    ZeroWidth,
    /// The image has more columns or rows than `MAX_IMAGE_SIDE`, or more
    /// pixels than can be addressed at three bytes each.
    ImageTooLarge,
    /// The ratio of width to height is not positive.
    NonPositiveAspectRatio,
    /// No sample is taken per pixel.
    ZeroSamples,
    /// The camera looks at the point where it stands.
    DegenerateView,
    /// The up direction has no part across the view: it runs along the view
    /// or has no length.
    UpAlongView,
}

/// What a camera is made of: the parameters it was set up with, and the
/// geometry of the image plane derived from them.
#[derive(Clone, Copy, Debug)]
pub struct CameraModel {
    /// Ratio of the image's width to its height.
    pub aspect_ratio: Scalar,
    /// Number of columns of the image.
    pub image_width: usize,
    /// Number of rows of the image.
    pub image_height: usize,
    /// Number of rays traced per pixel.
    pub samples_per_pixel: u32,
    /// Where the rays start, unless the lens is open.
    pub camera_center: Vector,
    /// The center of the pixel in column 0 and row 0.
    pub pixel00_loc: Vector,
    /// From a pixel to its neighbour in the next column.
    pub pixel_delta_u: Vector,
    /// From a pixel to its neighbour in the next row.
    pub pixel_delta_v: Vector,
    /// The weight of one sample in a pixel's colour.
    pub pixel_samples_scale: Scalar,
    /// How often a ray may be scattered.
    pub max_depth: u32,
    /// Where the camera stands.
    pub lookfrom: Vector,
    /// The point that the camera looks at.
    pub lookat: Vector,
    /// The direction that is up in the image.
    pub vup: Vector,
    /// Tangent of half the vertical field of view.
    pub tan_half_vfov: Scalar,
    /// Tangent of half the angle under which the lens is seen from the
    /// point in focus. The lens is closed where it is not positive.
    pub tan_half_defocus: Scalar,
    /// Distance from the camera to the plane in focus.
    pub focus_dist: Scalar,
    /// Horizontal radius of the lens.
    pub defocus_disk_u: Vector,
    /// Vertical radius of the lens.
    pub defocus_disk_v: Vector,
}

/// A camera, set up once and then left as it is.
pub struct Camera {
    aspect_ratio: Scalar,
    image_width: usize,
    image_height: usize,
    samples_per_pixel: u32,
    camera_center: Vector,
    pixel00_loc: Vector,
    pixel_delta_u: Vector,
    pixel_delta_v: Vector,
    pixel_samples_scale: Scalar,
    max_depth: u32,
    lookfrom: Vector,
    lookat: Vector,
    vup: Vector,
    tan_half_vfov: Scalar,
    tan_half_defocus: Scalar,
    focus_dist: Scalar,
    defocus_disk_u: Vector,
    defocus_disk_v: Vector,
}

impl View for Camera {
    type V = CameraModel;

    closed spec fn view(&self) -> CameraModel {
        CameraModel {
            aspect_ratio: self.aspect_ratio,
            image_width: self.image_width,
            image_height: self.image_height,
            samples_per_pixel: self.samples_per_pixel,
            camera_center: self.camera_center,
            pixel00_loc: self.pixel00_loc,
            pixel_delta_u: self.pixel_delta_u,
            pixel_delta_v: self.pixel_delta_v,
            pixel_samples_scale: self.pixel_samples_scale,
            max_depth: self.max_depth,
            lookfrom: self.lookfrom,
            lookat: self.lookat,
            vup: self.vup,
            tan_half_vfov: self.tan_half_vfov,
            tan_half_defocus: self.tan_half_defocus,
            focus_dist: self.focus_dist,
            defocus_disk_u: self.defocus_disk_u,
            defocus_disk_v: self.defocus_disk_v,
        }
    }
}

/// The number of rows of an image with `image_width` columns and the given
/// ratio of width to height: their quotient rounded down, and at least one.
pub open spec fn spec_image_height(image_width: usize, aspect_ratio: Scalar) -> int {
    let rows = trunc_div(
        Scalar::spec_from_int(image_width as int).spec_div(aspect_ratio)@,
        ONE_RAW as int,
    );
    if rows < 1 {
        1
    } else {
        rows
    }
}

/// What is wrong with the parameters of a camera, if anything: the first
/// of the errors in the order of their declaration.
pub open spec fn spec_check(
    aspect_ratio: Scalar,
    image_width: usize,
    samples_per_pixel: u32,
    lookfrom: Vector,
    lookat: Vector,
    vup: Vector,
) -> Option<CameraError> {
    if image_width == 0 {
        Some(CameraError::ZeroWidth)
    } else if image_width > MAX_IMAGE_SIDE {
        Some(CameraError::ImageTooLarge)
    } else if aspect_ratio@ <= 0 {
        Some(CameraError::NonPositiveAspectRatio)
    } else if !spec_fits(image_width, spec_image_height(image_width, aspect_ratio)) {
        Some(CameraError::ImageTooLarge)
    } else if samples_per_pixel == 0 {
        Some(CameraError::ZeroSamples)
    } else if lookfrom.spec_sub(lookat).spec_length()@ == 0 {
        Some(CameraError::DegenerateView)
    } else if spec_rightward(lookfrom, lookat, vup).spec_length()@ == 0 {
        Some(CameraError::UpAlongView)
    } else {
        None
    }
}

/// Whether an image with the given numbers of columns and rows can be held:
/// neither exceeds `MAX_IMAGE_SIDE`, and the three bytes of every pixel can
/// be counted.
pub open spec fn spec_fits(image_width: usize, image_height: int) -> bool {
    &&& image_height <= MAX_IMAGE_SIDE
    &&& 3 * (image_width * image_height) <= usize::MAX
}

/// The vector product of the up direction and the unit vector from `lookat`
/// to `lookfrom`: the direction to the right in the image, not yet of unit
/// length.
pub open spec fn spec_rightward(lookfrom: Vector, lookat: Vector, vup: Vector) -> Vector {
    vup.spec_cross(lookfrom.spec_sub(lookat).spec_unit_vector())
}

/// The camera with the given parameters.
///
/// The camera stands at `lookfrom`. With `w` the unit vector from `lookat`
/// to `lookfrom`, `u` the unit vector along `vup x w` and `v = w x u`, the
/// three make an orthonormal basis whatever the length of `vup` and its
/// angle to the view. The image plane lies at
/// distance `focus_dist` in front of the camera, across `w`; it is
/// `2 tan_half_vfov focus_dist` high and wide in the ratio of the image's
/// columns to its rows, and its rows run along `u` and its columns against
/// `v`. The pixels divide it evenly. The lens has the radius
/// `tan_half_defocus focus_dist`.
pub open spec fn spec_configure(
    aspect_ratio: Scalar,
    image_width: usize,
    samples_per_pixel: u32,
    max_depth: u32,
    lookfrom: Vector,
    lookat: Vector,
    vup: Vector,
    tan_half_vfov: Scalar,
    tan_half_defocus: Scalar,
    focus_dist: Scalar,
) -> CameraModel {
    let image_height = spec_image_height(image_width, aspect_ratio);
    let columns = Scalar::spec_from_int(image_width as int);
    let rows = Scalar::spec_from_int(image_height);
    let two = Scalar::spec_from_int(2);
    let viewport_height = two.spec_mul(tan_half_vfov).spec_mul(focus_dist);
    let viewport_width = viewport_height.spec_mul(columns.spec_div(rows));
    let w = lookfrom.spec_sub(lookat).spec_unit_vector();
    let u = spec_rightward(lookfrom, lookat, vup).spec_unit_vector();
    let v = w.spec_cross(u);
    let viewport_u = u.spec_scale(viewport_width);
    let viewport_v = v.spec_opposite().spec_scale(viewport_height);
    let pixel_delta_u = viewport_u.spec_div(columns);
    let pixel_delta_v = viewport_v.spec_div(rows);
    let viewport_upper_left = lookfrom.spec_sub(w.spec_scale(focus_dist)).spec_sub(
        viewport_u.spec_div(two),
    ).spec_sub(viewport_v.spec_div(two));
    let defocus_radius = tan_half_defocus.spec_mul(focus_dist);
    CameraModel {
        aspect_ratio,
        image_width,
        image_height: image_height as usize,
        samples_per_pixel,
        camera_center: lookfrom,
        pixel00_loc: viewport_upper_left.spec_add(
            pixel_delta_u.spec_add(pixel_delta_v).spec_scale(Scalar::spec_from_ratio(1, 2)),
        ),
        pixel_delta_u,
        pixel_delta_v,
        pixel_samples_scale: Scalar::spec_from_int(1).spec_div(
            Scalar::spec_from_int(samples_per_pixel as int),
        ),
        max_depth,
        lookfrom,
        lookat,
        vup,
        tan_half_vfov,
        tan_half_defocus,
        focus_dist,
        defocus_disk_u: u.spec_scale(defocus_radius),
        defocus_disk_v: v.spec_scale(defocus_radius),
    }
}

impl CameraModel {
    /// Whether `offset` lies in the square of side one around the origin of
    /// the plane `z = 0`, in which the samples of a pixel are taken.
    pub open spec fn in_pixel_square(offset: Vector) -> bool {
        &&& -ONE_RAW / 2 <= offset.x@ < ONE_RAW / 2
        &&& -ONE_RAW / 2 <= offset.y@ < ONE_RAW / 2
        &&& offset.z@ == 0
    }

    /// The point of the lens that the point `p` of the unit disk stands
    /// for.
    pub open spec fn spec_lens_point(self, p: Vector) -> Vector {
        self.camera_center.spec_add(self.defocus_disk_u.spec_scale(p.x)).spec_add(
            self.defocus_disk_v.spec_scale(p.y),
        )
    }

    /// The point of the lens that was drawn, or the camera's center where
    /// none was.
    pub open spec fn spec_lens_sample(self, lens: Option<Vector>) -> Vector {
        match lens {
            Some(p) => self.spec_lens_point(p),
            None => self.camera_center,
        }
    }

    /// Whether `lens` is what drawing a point of the unit disk may give.
    pub open spec fn is_lens_draw(lens: Option<Vector>) -> bool {
        lens matches Some(p) ==> p.in_unit_square() && p.spec_in_unit_disk()
    }

    /// Where a ray starts: at the camera's center where the lens is closed,
    /// else at the point of the lens that was drawn.
    pub open spec fn spec_ray_origin(self, lens: Option<Vector>) -> Vector {
        if self.tan_half_defocus@ <= 0 {
            self.camera_center
        } else {
            self.spec_lens_sample(lens)
        }
    }

    /// The ray through the pixel in column `i` and row `j`, displaced within
    /// the pixel by `offset`, from the lens point that `lens` stands for.
    pub open spec fn spec_get_ray(self, i: u32, j: u32, offset: Vector, lens: Option<Vector>) -> Ray {
        let pixel_sample = self.pixel00_loc.spec_add(
            self.pixel_delta_u.spec_scale(Scalar::spec_from_int(i as int).spec_add(offset.x)),
        ).spec_add(
            self.pixel_delta_v.spec_scale(Scalar::spec_from_int(j as int).spec_add(offset.y)),
        );
        let ray_origin = self.spec_ray_origin(lens);
        Ray { orig: ray_origin, dir: pixel_sample.spec_sub(ray_origin) }
    }

    /// Whether `colour` is what some ray that the camera may send through
    /// the pixel in column `i` and row `j` brings back from the scene `world`,
    /// for some random numbers.
    pub open spec fn is_sample<W: Hittable>(self, world: W, i: u32, j: u32, colour: Vector) -> bool {
        exists|ray: Ray, draws: spec_fn(nat) -> Draw|
            {
                &&& self.is_camera_ray(i, j, ray)
                &&& forall|k: nat| #[trigger] draws(k).wf()
                &&& colour == #[trigger] spec_ray_colour(ray, self.max_depth as nat, world, draws)
            }
    }

    /// The sum of the colours `samples`, added up from the first.
    pub open spec fn spec_total(samples: Seq<Vector>) -> Vector
        decreases samples.len(),
    {
        if samples.len() == 0 {
            Vector::spec_zero()
        } else {
            CameraModel::spec_total(samples.drop_last()).spec_add(samples.last())
        }
    }

    /// The bytes of the pixel whose samples are `samples`: those of their
    /// sum, scaled down by the number of samples.
    pub open spec fn spec_pixel(self, samples: Seq<Vector>) -> (u8, u8, u8) {
        let mean = CameraModel::spec_total(samples).spec_scale(self.pixel_samples_scale);
        (spec_channel(mean.x) as u8, spec_channel(mean.y) as u8, spec_channel(mean.z) as u8)
    }

    /// Whether `rgb` is a colour that the pixel in column `i` and row `j`
    /// may get in an image of the scene `world`: that of `samples_per_pixel`
    /// samples.
    pub open spec fn is_pixel<W: Hittable>(self, world: W, i: u32, j: u32, rgb: (u8, u8, u8)) -> bool {
        exists|samples: Seq<Vector>|
            {
                &&& samples.len() == self.samples_per_pixel
                &&& forall|n: int|
                    0 <= n < samples.len() ==> self.is_sample(world, i, j, #[trigger] samples[n])
                &&& rgb == #[trigger] self.spec_pixel(samples)
            }
    }

    /// Whether `ray` is a ray that the camera may send through the pixel in
    /// column `i` and row `j`.
    pub open spec fn is_camera_ray(self, i: u32, j: u32, ray: Ray) -> bool {
        exists|offset: Vector, lens: Option<Vector>|
            {
                &&& CameraModel::in_pixel_square(offset)
                &&& CameraModel::is_lens_draw(lens)
                &&& ray == #[trigger] self.spec_get_ray(i, j, offset, lens)
            }
    }
}

impl Default for Camera {
    /// The camera at the origin that looks along the negative `z` axis with
    /// `y` up, a vertical field of view of 90 degrees, a closed lens and the
    /// plane in focus at distance 10. Its image is 400 pixels wide and 16:9;
    /// it takes 100 samples per pixel and scatters a ray up to 50 times.
    fn default() -> (camera: Camera)
        ensures
            camera@ == spec_configure(
                Scalar::spec_from_ratio(16, 9),
                400,
                100,
                50,
                Vector::spec_zero(),
                Vector {
                    x: Scalar::of_raw(0),
                    y: Scalar::of_raw(0),
                    z: Scalar::spec_from_int(-1),
                },
                Vector {
                    x: Scalar::of_raw(0),
                    y: Scalar::spec_from_int(1),
                    z: Scalar::of_raw(0),
                },
                Scalar::spec_from_int(1),
                Scalar::of_raw(0),
                Scalar::spec_from_int(10),
            ),
    {
        broadcast use crate::scalar::group_scalar;

        let aspect_ratio = Scalar::from_ratio(16, 9);
        let lookfrom = Vector::zero();
        let lookat = Vector::new(Scalar::zero(), Scalar::zero(), Scalar::from_int(-1));
        let vup = Vector::new(Scalar::zero(), Scalar::from_int(1), Scalar::zero());
        proof {
            assert(16 * ONE_RAW == 68719476736);
            assert(68719476736int / 9 == 7635497415);
            assert(aspect_ratio@ == 7635497415);
            assert(400 * ONE_RAW == 1717986918400);
            assert(1717986918400 * ONE_RAW == 7378697629483820646400);
            assert(7378697629483820646400int / 7635497415 == 966367641614);
            assert(Scalar::spec_from_int(400).spec_div(aspect_ratio)@ == 966367641614);
            assert(966367641614int / 4294967296 == 225);
            assert(spec_image_height(400, aspect_ratio) == 225);
            let toward = lookfrom.spec_sub(lookat);
            assert(toward.x@ == 0 && toward.y@ == 0 && toward.z@ == 4294967296);
            assert(4294967296int * 4294967296 == 18446744073709551616);
            assert(4294967297int * 4294967297 == 18446744082299486209);
            crate::scalar::lemma_floor_sqrt_unique(18446744073709551616, 4294967296);
            assert(toward.x@ * toward.x@ + toward.y@ * toward.y@ + toward.z@ * toward.z@
                == 18446744073709551616);
            assert(toward.spec_length()@ == ONE_RAW);
            // The view is along z, so the image's right is along x.
            assert(18446744073709551616int / 4294967296 == 4294967296);
            let w = toward.spec_unit_vector();
            assert(w.x@ == 0 && w.y@ == 0 && w.z@ == 4294967296);
            let right = spec_rightward(lookfrom, lookat, vup);
            assert(right.x@ == 4294967296 && right.y@ == 0 && right.z@ == 0);
            assert(right.x@ * right.x@ + right.y@ * right.y@ + right.z@ * right.z@
                == 18446744073709551616);
            assert(right.spec_length()@ == ONE_RAW);
            assert(3 * (400 * 225) <= usize::MAX);
        }
        Camera::initialize(
            aspect_ratio,
            400,
            100,
            50,
            lookfrom,
            lookat,
            vup,
            Scalar::from_int(1),
            Scalar::zero(),
            Scalar::from_int(10),
        )
    }
}

impl Camera {
    /// A camera has an image of at least one pixel that can be held, and
    /// takes at least one sample per pixel.
    #[verifier::type_invariant]
    closed spec fn inv(self) -> bool {
        &&& 1 <= self.image_width <= MAX_IMAGE_SIDE
        &&& 1 <= self.image_height
        &&& spec_fits(self.image_width, self.image_height as int)
        &&& 1 <= self.samples_per_pixel
    }

    /// Sets up a camera.
    ///
    /// * `aspect_ratio`: ratio of the image's width to its height
    /// * `image_width`: number of columns of the image
    /// * `samples_per_pixel`: number of rays traced per pixel
    /// * `max_depth`: how often a ray may be scattered
    /// * `lookfrom`, `lookat`: where the camera stands, and a point that it
    ///   looks at
    /// * `vup`: the direction that is up in the image
    /// * `tan_half_vfov`: tangent of half the vertical field of view
    /// * `tan_half_defocus`: tangent of half the angle under which the lens
    ///   is seen from the point in focus; not positive for a closed lens
    /// * `focus_dist`: distance from the camera to the plane in focus
    pub fn new(
        aspect_ratio: Scalar,
        image_width: usize,
        samples_per_pixel: u32,
        max_depth: u32,
        lookfrom: Vector,
        lookat: Vector,
        vup: Vector,
        tan_half_vfov: Scalar,
        tan_half_defocus: Scalar,
        focus_dist: Scalar,
    ) -> (r: Result<Camera, CameraError>)
        ensures
            match r {
                Ok(camera) => {
                    &&& spec_check(aspect_ratio, image_width, samples_per_pixel, lookfrom, lookat, vup)
                        is None
                    &&& camera@ == spec_configure(
                        aspect_ratio,
                        image_width,
                        samples_per_pixel,
                        max_depth,
                        lookfrom,
                        lookat,
                        vup,
                        tan_half_vfov,
                        tan_half_defocus,
                        focus_dist,
                    )
                },
                Err(e) => spec_check(
                    aspect_ratio,
                    image_width,
                    samples_per_pixel,
                    lookfrom,
                    lookat,
                    vup,
                ) == Some(e),
            },
    {
        broadcast use crate::scalar::group_scalar;

        if image_width == 0 {
            return Err(CameraError::ZeroWidth);
        }
        if image_width > MAX_IMAGE_SIDE {
            return Err(CameraError::ImageTooLarge);
        }
        if aspect_ratio.le(Scalar::zero()) {
            return Err(CameraError::NonPositiveAspectRatio);
        }
        let quotient = Scalar::from_int(image_width as i64).div(aspect_ratio).trunc();
        let rows: i64 = if quotient < 1 {
            1
        } else {
            quotient
        };
        if rows > MAX_IMAGE_SIDE as i64 {
            return Err(CameraError::ImageTooLarge);
        }
        assert(image_width * rows <= 2147483647 * 2147483647) by (nonlinear_arith)
            requires
                0 <= image_width <= 2147483647,
                0 <= rows <= 2147483647,
        ;
        if 3 * (image_width as u128 * rows as u128) > usize::MAX as u128 {
            return Err(CameraError::ImageTooLarge);
        }
        if samples_per_pixel == 0 {
            return Err(CameraError::ZeroSamples);
        }
        let toward = lookfrom.sub(lookat);
        if toward.length().is_zero() {
            return Err(CameraError::DegenerateView);
        }
        if vup.cross(&toward.unit_vector()).length().is_zero() {
            return Err(CameraError::UpAlongView);
        }
        Ok(
            Camera::initialize(
                aspect_ratio,
                image_width,
                samples_per_pixel,
                max_depth,
                lookfrom,
                lookat,
                vup,
                tan_half_vfov,
                tan_half_defocus,
                focus_dist,
            ),
        )
    }

    /// What the camera is made of.
    pub fn model(&self) -> (m: CameraModel)
        ensures
            m == self@,
            1 <= m.image_width <= MAX_IMAGE_SIDE,
            1 <= m.image_height <= MAX_IMAGE_SIDE,
            3 * (m.image_width * m.image_height) <= usize::MAX,
            1 <= m.samples_per_pixel,
    {
        proof {
            use_type_invariant(self);
        }
        CameraModel {
            aspect_ratio: self.aspect_ratio,
            image_width: self.image_width,
            image_height: self.image_height,
            samples_per_pixel: self.samples_per_pixel,
            camera_center: self.camera_center,
            pixel00_loc: self.pixel00_loc,
            pixel_delta_u: self.pixel_delta_u,
            pixel_delta_v: self.pixel_delta_v,
            pixel_samples_scale: self.pixel_samples_scale,
            max_depth: self.max_depth,
            lookfrom: self.lookfrom,
            lookat: self.lookat,
            vup: self.vup,
            tan_half_vfov: self.tan_half_vfov,
            tan_half_defocus: self.tan_half_defocus,
            focus_dist: self.focus_dist,
            defocus_disk_u: self.defocus_disk_u,
            defocus_disk_v: self.defocus_disk_v,
        }
    }

    /// Derives the geometry of the image plane from parameters that were
    /// checked.
    fn initialize(
        aspect_ratio: Scalar,
        image_width: usize,
        samples_per_pixel: u32,
        max_depth: u32,
        lookfrom: Vector,
        lookat: Vector,
        vup: Vector,
        tan_half_vfov: Scalar,
        tan_half_defocus: Scalar,
        focus_dist: Scalar,
    ) -> (camera: Camera)
        requires
            spec_check(aspect_ratio, image_width, samples_per_pixel, lookfrom, lookat, vup) is None,
        ensures
            camera@ == spec_configure(
                aspect_ratio,
                image_width,
                samples_per_pixel,
                max_depth,
                lookfrom,
                lookat,
                vup,
                tan_half_vfov,
                tan_half_defocus,
                focus_dist,
            ),
    {
        broadcast use crate::scalar::group_scalar;

        let quotient = Scalar::from_int(image_width as i64).div(aspect_ratio).trunc();
        let image_height: usize = if quotient < 1 {
            1
        } else {
            quotient as usize
        };
        let columns = Scalar::from_int(image_width as i64);
        let rows = Scalar::from_int(image_height as i64);
        let two = Scalar::from_int(2);

        let camera_center = lookfrom;

        let viewport_height = two.mul(tan_half_vfov).mul(focus_dist);
        let viewport_width = viewport_height.mul(columns.div(rows));

        // An orthonormal basis: w against the view, u to the right and v up.
        let w = lookfrom.sub(lookat).unit_vector();
        let u = vup.cross(&w).unit_vector();
        let v = w.cross(&u);

        // The vectors across the horizontal and down the vertical edge of
        // the image plane, and from pixel to pixel.
        let viewport_u = u.mul(viewport_width);
        let viewport_v = v.mul(Scalar::from_int(-1)).mul(viewport_height);
        let pixel_delta_u = viewport_u.div(columns);
        let pixel_delta_v = viewport_v.div(rows);

        // The upper left corner of the image plane, and the pixel there.
        let viewport_upper_left = camera_center.sub(w.mul(focus_dist)).sub(
            viewport_u.div(two),
        ).sub(viewport_v.div(two));
        let pixel00_loc = viewport_upper_left.add(
            pixel_delta_u.add(pixel_delta_v).mul(Scalar::from_ratio(1, 2)),
        );

        let pixel_samples_scale = Scalar::from_int(1).div(Scalar::from_int(samples_per_pixel as i64));

        let defocus_radius = tan_half_defocus.mul(focus_dist);
        Camera {
            aspect_ratio,
            image_width,
            image_height,
            samples_per_pixel,
            camera_center,
            pixel00_loc,
            pixel_delta_u,
            pixel_delta_v,
            pixel_samples_scale,
            max_depth,
            lookfrom,
            lookat,
            vup,
            tan_half_vfov,
            tan_half_defocus,
            focus_dist,
            defocus_disk_u: u.mul(defocus_radius),
            defocus_disk_v: v.mul(defocus_radius),
        }
    }

    /// A random displacement within a pixel: a point of the square of side
    /// one around the origin of the plane `z = 0`.
    pub fn sample_square() -> (offset: Vector)
        ensures
            CameraModel::in_pixel_square(offset),
    {
        broadcast use crate::scalar::group_scalar;

        let half = Scalar::from_ratio(1, 2);
        proof {
            assert(1 * ONE_RAW == 4294967296);
            assert(4294967296int / 2 == 2147483648);
            assert(half@ == 2147483648);
            assert(ONE_RAW / 2 == 2147483648);
        }
        Vector::new(utility::random_df().sub(half), utility::random_df().sub(half), Scalar::zero())
    }

    /// The point of the lens that the point `p` of the unit disk stands
    /// for.
    pub fn lens_point(&self, p: Vector) -> (r: Vector)
        ensures
            r == self@.spec_lens_point(p),
    {
        self.camera_center.add(self.defocus_disk_u.mul(p.x)).add(self.defocus_disk_v.mul(p.y))
    }

    /// A random point of the lens, or the camera's center where none could
    /// be drawn.
    pub fn defocus_disk_sample(&self) -> (r: Vector)
        ensures
            exists|lens: Option<Vector>|
                CameraModel::is_lens_draw(lens) && r == #[trigger] self@.spec_lens_sample(lens),
    {
        let lens = Vector::random_in_unit_disk();
        let r = match lens {
            Some(p) => self.lens_point(p),
            None => self.camera_center,
        };
        assert(r == self@.spec_lens_sample(lens));
        r
    }

    /// The ray through the pixel in column `i` and row `j`, displaced within
    /// the pixel by `offset`, from the lens point that `lens` stands for.
    pub fn get_ray_with(&self, i: u32, j: u32, offset: Vector, lens: Option<Vector>) -> (r: Ray)
        ensures
            r == self@.spec_get_ray(i, j, offset, lens),
    {
        let pixel_sample = self.pixel00_loc.add(
            self.pixel_delta_u.mul(Scalar::from_int(i as i64).add(offset.x)),
        ).add(self.pixel_delta_v.mul(Scalar::from_int(j as i64).add(offset.y)));

        let ray_origin = if self.tan_half_defocus.le(Scalar::zero()) {
            self.camera_center
        } else {
            match lens {
                Some(p) => self.lens_point(p),
                None => self.camera_center,
            }
        };
        let ray_direction = pixel_sample.sub(ray_origin);

        Ray::new(ray_origin, ray_direction)
    }

    /// A ray through a random point of the pixel in column `i` and row `j`,
    /// from the camera's center where the lens is closed, else from a random
    /// point of the lens.
    pub fn get_ray(&self, i: u32, j: u32) -> (r: Ray)
        ensures
            self@.is_camera_ray(i, j, r),
    {
        let offset = Camera::sample_square();
        let lens = if self.tan_half_defocus.le(Scalar::zero()) {
            None
        } else {
            Vector::random_in_unit_disk()
        };
        let r = self.get_ray_with(i, j, offset, lens);
        assert(r == self@.spec_get_ray(i, j, offset, lens));
        r
    }
}

/// The range of ray parameters in which hits count: from 0.001 on.
pub open spec fn spec_visible() -> Interval {
    Interval { min: Scalar::spec_from_ratio(1, 1000), max: Scalar::of_raw(crate::scalar::MAX_RAW as int) }
}

/// The colour of the sky in the direction of the ray `r`: white at the
/// bottom, blue at the top and blended linearly in between, by the height
/// of the ray's unit direction.
pub open spec fn spec_background(r: Ray) -> Vector {
    let unit_dir = r.dir.spec_unit_vector();
    let a = unit_dir.y.spec_add(Scalar::spec_from_int(1)).spec_mul(Scalar::spec_from_ratio(1, 2));
    Vector::spec_ones().spec_scale(Scalar::spec_from_int(1).spec_sub(a)).spec_add(
        spec_sky_blue().spec_scale(a),
    )
}

/// The colour of the sky at the top: `(0.5, 0.7, 1.0)`.
pub open spec fn spec_sky_blue() -> Vector {
    Vector {
        x: Scalar::spec_from_ratio(1, 2),
        y: Scalar::spec_from_ratio(7, 10),
        z: Scalar::spec_from_int(1),
    }
}

/// The colour that the ray `r` brings back from the scene `world`, when it
/// may be scattered `depth` times and scattering number `i`, counted from
/// the last one, uses the random numbers `draws(i)`.
///
/// A ray that may not be scattered any more brings back black, and so does
/// one without a direction. A ray that hits nothing brings back the colour of
/// the sky. A ray that hits a surface is scattered by its material: it
/// brings back what the scattered ray does, attenuated, or black where the
/// material absorbs it.
pub open spec fn spec_ray_colour<W: Hittable>(
    r: Ray,
    depth: nat,
    world: W,
    draws: spec_fn(nat) -> Draw,
) -> Vector
    decreases depth,
{
    if depth == 0 || r.spec_is_degenerate() {
        Vector::spec_zero()
    } else {
        match world.spec_hit(r, spec_visible()) {
            Some(rec) => match (*rec.mat).spec_scatter(r, rec, draws((depth - 1) as nat)) {
                Some((attenuation, scattered)) => attenuation.spec_mul(
                    spec_ray_colour(scattered, (depth - 1) as nat, world, draws),
                ),
                None => Vector::spec_zero(),
            },
            None => spec_background(r),
        }
    }
}

/// The sky is never darker than its blue: whatever the direction of the
/// ray, the blue byte of the colour of the sky is 255, the red byte is at
/// least 181 and the green byte at least 214, the bytes of `(0.5, 0.7, 1)`.
/// The components of the direction must not exceed `2^61` raw units, so that
/// its length can be held.
pub proof fn lemma_sky_bytes(r: Ray)
    requires
        !r.spec_is_degenerate(),
        r.dir.spec_within(0x2000_0000_0000_0000),
    ensures
        181 <= spec_channel(spec_background(r).x) <= 255,
        214 <= spec_channel(spec_background(r).y) <= 255,
        spec_channel(spec_background(r).z) == 255,
{
    let s: int = 4294967296;
    crate::scalar::lemma_sqrt_nonnegative(0);
    Scalar::lemma_view_bounds(r.dir.spec_length());
    assert(r.dir.spec_length()@ >= 0) by {
        let sum = r.dir.x@ * r.dir.x@ + r.dir.y@ * r.dir.y@ + r.dir.z@ * r.dir.z@;
        crate::scalar::lemma_product_sign(r.dir.x@, r.dir.x@);
        crate::scalar::lemma_product_sign(r.dir.y@, r.dir.y@);
        crate::scalar::lemma_product_sign(r.dir.z@, r.dir.z@);
        crate::scalar::lemma_floor_sqrt_exists(sum);
        Scalar::lemma_of_raw(crate::scalar::saturate(crate::scalar::floor_sqrt(sum)));
    }
    crate::refraction::lemma_unit_vector_within_one(r.dir);
    let unit_dir = r.dir.spec_unit_vector();
    let y = unit_dir.y@;
    Scalar::lemma_of_raw(s);
    Scalar::lemma_of_raw(y + s);
    assert(1 * ONE_RAW == 4294967296);
    assert(4294967296int / 2 == 2147483648);
    Scalar::lemma_of_raw(2147483648);
    let half = Scalar::spec_from_ratio(1, 2);
    assert(half@ == 2147483648);
    crate::scalar::lemma_mul_raw_small(y + s, 2147483648);
    crate::scalar::lemma_product_sign(y + s, 2147483648);
    let a = mul_raw(y + s, 2147483648);
    Scalar::lemma_of_raw(a);
    assert(unit_dir.y.spec_add(Scalar::spec_from_int(1)).spec_mul(half)@ == a);
    assert(0 <= a <= s);
    Scalar::lemma_of_raw(s - a);
    // White, weighed by what is left of the blend.
    crate::scalar::lemma_mul_raw_commutes(s, s - a);
    crate::scalar::lemma_mul_raw_one(s - a);
    // Blue, weighed by the blend.
    crate::scalar::lemma_mul_raw_commutes(2147483648, a);
    crate::scalar::lemma_mul_raw_small(a, 2147483648);
    crate::scalar::lemma_product_sign(a, 2147483648);
    assert(7 * ONE_RAW == 30064771072);
    assert(30064771072int / 10 == 3006477107);
    Scalar::lemma_of_raw(3006477107);
    crate::scalar::lemma_mul_raw_commutes(3006477107, a);
    crate::scalar::lemma_mul_raw_small(a, 3006477107);
    crate::scalar::lemma_product_sign(a, 3006477107);
    crate::scalar::lemma_mul_raw_commutes(s, a);
    crate::scalar::lemma_mul_raw_one(a);
    let bx = mul_raw(2147483648, a);
    let by = mul_raw(3006477107, a);
    Scalar::lemma_of_raw(bx);
    Scalar::lemma_of_raw(by);
    Scalar::lemma_of_raw(s - a + bx);
    Scalar::lemma_of_raw(s - a + by);
    Scalar::lemma_of_raw(s - a + a);
    let sky = spec_background(r);
    assert(sky.x@ == s - a + bx);
    assert(sky.y@ == s - a + by);
    assert(sky.z@ == s);
    assert(sky.x@ >= 2147483648);
    assert(sky.y@ >= 3006477107);
    assert(3037000499int * 3037000499 == 9223372030926249001);
    assert(2147483648int * 4294967296 == 9223372036854775808);
    crate::colour::lemma_channel_at_least(sky.x, 2147483648, 3037000499, 181);
    assert(3593427451int * 3593427451 == 12912720845600357401);
    assert(3006477107int * 4294967296 == 12912720850737692672);
    crate::colour::lemma_channel_at_least(sky.y, 3006477107, 3593427451, 214);
    assert(4290672328int * 4290672328 == 18409869026264939584);
    assert(4294967296int * 4294967296 == 18446744073709551616);
    crate::colour::lemma_channel_at_least(sky.z, 4294967296, 4290672328, 255);
    lemma_channel_is_byte(sky.x);
    lemma_channel_is_byte(sky.y);
    lemma_channel_is_byte(sky.z);
}

/// A colour multiplied by black is black.
pub proof fn lemma_times_black(c: Vector)
    ensures
        c.spec_mul(Vector::spec_zero()) == Vector::spec_zero(),
        Vector::spec_zero().spec_scale(c.x) == Vector::spec_zero(),
        Vector::spec_zero().spec_add(Vector::spec_zero()) == Vector::spec_zero(),
{
    broadcast use crate::scalar::group_scalar;

    crate::scalar::lemma_product_sign(c.x@, 0);
    crate::scalar::lemma_product_sign(c.y@, 0);
    crate::scalar::lemma_product_sign(c.z@, 0);
    crate::scalar::lemma_product_sign(0, c.x@);
}

/// A ray that may be scattered once brings back black from whatever it
/// hits, and the colour of the sky where it hits nothing.
pub proof fn lemma_one_scattering<W: Hittable>(r: Ray, world: W, draws: spec_fn(nat) -> Draw)
    ensures
        spec_ray_colour(r, 1, world, draws) == (if r.spec_is_degenerate() || world.spec_hit(
            r,
            spec_visible(),
        ) is Some {
            Vector::spec_zero()
        } else {
            spec_background(r)
        }),
{
    reveal_with_fuel(spec_ray_colour, 2);
    if !r.spec_is_degenerate() {
        match world.spec_hit(r, spec_visible()) {
            Some(rec) => {
                match (*rec.mat).spec_scatter(r, rec, draws(0)) {
                    Some((attenuation, scattered)) => {
                        lemma_times_black(attenuation);
                        assert(spec_ray_colour(scattered, 0, world, draws) == Vector::spec_zero());
                    },
                    None => {},
                }
            },
            None => {},
        }
    }
}

/// A ray that hits nothing brings back the colour of the sky, however often
/// it may be scattered.
pub proof fn lemma_miss_shows_sky<W: Hittable>(
    r: Ray,
    depth: nat,
    world: W,
    draws: spec_fn(nat) -> Draw,
)
    requires
        depth >= 1,
        !r.spec_is_degenerate(),
        world.spec_hit(r, spec_visible()) is None,
    ensures
        spec_ray_colour(r, depth, world, draws) == spec_background(r),
{
}

/// The sum of black samples is black.
pub proof fn lemma_total_of_black(samples: Seq<Vector>)
    requires
        forall|n: int| 0 <= n < samples.len() ==> #[trigger] samples[n] == Vector::spec_zero(),
    ensures
        CameraModel::spec_total(samples) == Vector::spec_zero(),
    decreases samples.len(),
{
    if samples.len() > 0 {
        lemma_total_of_black(samples.drop_last());
        lemma_times_black(Vector::spec_zero());
    }
}

/// Where the camera scatters a ray once, a pixel all of whose rays hit
/// something is black: whatever the surfaces are made of, the scattered ray
/// brings nothing back.
pub proof fn lemma_shadowed_pixel<W: Hittable>(
    model: CameraModel,
    world: W,
    i: u32,
    j: u32,
    rgb: (u8, u8, u8),
)
    requires
        model.max_depth == 1,
        model.is_pixel(world, i, j, rgb),
        forall|ray: Ray| #[trigger]
            model.is_camera_ray(i, j, ray) ==> ray.spec_is_degenerate() || world.spec_hit(
                ray,
                spec_visible(),
            ) is Some,
    ensures
        rgb == (0u8, 0u8, 0u8),
{
    let samples = choose|samples: Seq<Vector>|
        {
            &&& samples.len() == model.samples_per_pixel
            &&& forall|n: int|
                0 <= n < samples.len() ==> model.is_sample(world, i, j, #[trigger] samples[n])
            &&& rgb == #[trigger] model.spec_pixel(samples)
        };
    assert forall|n: int| 0 <= n < samples.len() implies #[trigger] samples[n]
        == Vector::spec_zero() by {
        assert(model.is_sample(world, i, j, samples[n]));
        let (ray, draws) = choose|ray: Ray, draws: spec_fn(nat) -> Draw|
            {
                &&& model.is_camera_ray(i, j, ray)
                &&& forall|k: nat| #[trigger] draws(k).wf()
                &&& samples[n] == #[trigger] spec_ray_colour(
                    ray,
                    model.max_depth as nat,
                    world,
                    draws,
                )
            };
        lemma_one_scattering(ray, world, draws);
    }
    lemma_total_of_black(samples);
    lemma_times_black(Vector { x: model.pixel_samples_scale, y: Scalar::of_raw(0), z: Scalar::of_raw(0) });
    crate::colour::lemma_channel_of_black();
}

/// Where the camera takes one sample per pixel and weighs it fully, a
/// pixel none of whose rays hits anything shows the sky: its bytes are those
/// of the colour of the sky in the direction of one of the pixel's rays.
pub proof fn lemma_open_pixel<W: Hittable>(
    model: CameraModel,
    world: W,
    i: u32,
    j: u32,
    rgb: (u8, u8, u8),
)
    requires
        model.samples_per_pixel == 1,
        model.pixel_samples_scale@ == ONE_RAW,
        model.max_depth >= 1,
        model.is_pixel(world, i, j, rgb),
        forall|ray: Ray| #[trigger]
            model.is_camera_ray(i, j, ray) ==> !ray.spec_is_degenerate() && world.spec_hit(
                ray,
                spec_visible(),
            ) is None,
    ensures
        exists|ray: Ray|
            {
                &&& #[trigger] model.is_camera_ray(i, j, ray)
                &&& rgb.0 == spec_channel(spec_background(ray).x)
                &&& rgb.1 == spec_channel(spec_background(ray).y)
                &&& rgb.2 == spec_channel(spec_background(ray).z)
            },
{
    broadcast use crate::scalar::group_scalar;

    let samples = choose|samples: Seq<Vector>|
        {
            &&& samples.len() == model.samples_per_pixel
            &&& forall|n: int|
                0 <= n < samples.len() ==> model.is_sample(world, i, j, #[trigger] samples[n])
            &&& rgb == #[trigger] model.spec_pixel(samples)
        };
    assert(model.is_sample(world, i, j, samples[0]));
    let (ray, draws) = choose|ray: Ray, draws: spec_fn(nat) -> Draw|
        {
            &&& model.is_camera_ray(i, j, ray)
            &&& forall|k: nat| #[trigger] draws(k).wf()
            &&& samples[0] == #[trigger] spec_ray_colour(ray, model.max_depth as nat, world, draws)
        };
    lemma_miss_shows_sky(ray, model.max_depth as nat, world, draws);
    let sky = spec_background(ray);
    assert(samples[0] == sky);
    // The sum of the one sample, weighed fully, is the sample.
    assert(samples.drop_last().len() == 0);
    assert(CameraModel::spec_total(samples.drop_last()) == Vector::spec_zero());
    assert(samples.last() == sky);
    let total = CameraModel::spec_total(samples);
    assert(total == Vector::spec_zero().spec_add(sky));
    let mean = total.spec_scale(model.pixel_samples_scale);
    crate::scalar::lemma_mul_raw_one(total.x@);
    crate::scalar::lemma_mul_raw_one(total.y@);
    crate::scalar::lemma_mul_raw_one(total.z@);
    Scalar::lemma_view_injective(mean.x, sky.x);
    Scalar::lemma_view_injective(mean.y, sky.y);
    Scalar::lemma_view_injective(mean.z, sky.z);
    lemma_channel_is_byte(sky.x);
    lemma_channel_is_byte(sky.y);
    lemma_channel_is_byte(sky.z);
    assert(model.is_camera_ray(i, j, ray));
}

/// The colour that a ray brings back depends on the random numbers of the
/// scatterings that it may undergo, and on no others.
pub proof fn lemma_ray_colour_draws<W: Hittable>(
    r: Ray,
    depth: nat,
    world: W,
    d1: spec_fn(nat) -> Draw,
    d2: spec_fn(nat) -> Draw,
)
    requires
        forall|i: nat| i < depth ==> #[trigger] d1(i) == d2(i),
    ensures
        spec_ray_colour(r, depth, world, d1) == spec_ray_colour(r, depth, world, d2),
    decreases depth,
{
    if depth > 0 && !r.spec_is_degenerate() {
        match world.spec_hit(r, spec_visible()) {
            Some(rec) => {
                assert(d1((depth - 1) as nat) == d2((depth - 1) as nat));
                match (*rec.mat).spec_scatter(r, rec, d1((depth - 1) as nat)) {
                    Some((attenuation, scattered)) => {
                        lemma_ray_colour_draws(scattered, (depth - 1) as nat, world, d1, d2);
                    },
                    None => {},
                }
            },
            None => {},
        }
    }
}

impl Camera {
    /// The colour of the sky in the direction of the ray `r`, which must have a
    /// direction.
    pub fn background(r: &Ray) -> (c: Vector)
        requires
            !r.spec_is_degenerate(),
        ensures
            c == spec_background(*r),
    {
        let unit_dir = r.dir.unit_vector();
        let a = unit_dir.y.add(Scalar::from_int(1)).mul(Scalar::from_ratio(1, 2));
        let blue = Vector::new(Scalar::from_ratio(1, 2), Scalar::from_ratio(7, 10), Scalar::from_int(1));
        Vector::ones().mul(Scalar::from_int(1).sub(a)).add(blue.mul(a))
    }

    /// Traces the ray `r` through `world` with random numbers of its own
    /// drawing, and says which it drew.
    fn trace<W: Hittable>(r: &Ray, depth: u32, world: &W) -> (res: (
        Vector,
        Ghost<spec_fn(nat) -> Draw>,
    ))
        ensures
            res.0 == spec_ray_colour(*r, depth as nat, *world, res.1@),
            forall|i: nat| #[trigger] (res.1@)(i).wf(),
        decreases depth,
    {
        broadcast use crate::scalar::group_scalar;

        let ghost idle = |i: nat| Draw { unit: None, chance: Scalar::of_raw(0) };
        if depth == 0 || r.dir.length().is_zero() {
            return (Vector::zero(), Ghost(idle));
        }
        let mut hit_rec = HitRecord::new_empty();
        let visible = Interval::new(Scalar::from_ratio(1, 1000), Scalar::max_value());
        if world.hit(r, visible, &mut hit_rec) {
            let mut attenuation = Vector::zero();
            let mut scattered = Ray::new(Vector::zero(), Vector::zero());
            let did = hit_rec.mat.scatter(r, &hit_rec, &mut attenuation, &mut scattered);
            let ghost draw = choose|draw: Draw|
                draw.wf() && is_outcome(
                    #[trigger] (*hit_rec.mat).spec_scatter(*r, hit_rec, draw),
                    did,
                    attenuation,
                    scattered,
                );
            if did {
                let (onward, Ghost(later)) = Camera::trace(&scattered, depth - 1, world);
                let ghost draws = |i: nat|
                    if i == depth - 1 {
                        draw
                    } else {
                        later(i)
                    };
                proof {
                    lemma_ray_colour_draws(scattered, (depth - 1) as nat, *world, later, draws);
                }
                return (attenuation.mul_vector(onward), Ghost(draws));
            }
            let ghost draws = |i: nat| draw;
            return (Vector::zero(), Ghost(draws));
        }
        (Camera::background(r), Ghost(idle))
    }

    /// The colour that the ray `r` brings back from the scene `world` when it
    /// may be scattered `depth` times, with random numbers of its own drawing.
    pub fn ray_colour<W: Hittable>(r: &Ray, depth: u32, world: &W) -> (c: Vector)
        ensures
            exists|draws: spec_fn(nat) -> Draw|
                (forall|i: nat| #[trigger] draws(i).wf()) && c == spec_ray_colour(
                    *r,
                    depth as nat,
                    *world,
                    draws,
                ),
    {
        let (c, Ghost(draws)) = Camera::trace(r, depth, world);
        c
    }

    /// The colour that the ray `r` brings back from the scene `world` when it
    /// may be scattered `depth` times and scattering number `i`, counted from
    /// the last one, uses the random numbers `draws[i]`.
    pub fn ray_colour_with<W: Hittable>(r: &Ray, depth: u32, world: &W, draws: &Vec<Draw>) -> (c:
        Vector)
        requires
            depth <= draws@.len(),
        ensures
            c == spec_ray_colour(*r, depth as nat, *world, |i: nat| draws@[i as int]),
        decreases depth,
    {
        broadcast use crate::scalar::group_scalar;

        if depth == 0 || r.dir.length().is_zero() {
            return Vector::zero();
        }
        let mut hit_rec = HitRecord::new_empty();
        let visible = Interval::new(Scalar::from_ratio(1, 1000), Scalar::max_value());
        if world.hit(r, visible, &mut hit_rec) {
            let mut attenuation = Vector::zero();
            let mut scattered = Ray::new(Vector::zero(), Vector::zero());
            let draw = draws[(depth - 1) as usize];
            if hit_rec.mat.scatter_with(r, &hit_rec, &draw, &mut attenuation, &mut scattered) {
                return attenuation.mul_vector(Camera::ray_colour_with(&scattered, depth - 1, world, draws));
            }
            return Vector::zero();
        }
        Camera::background(r)
    }

    /// The colour of the pixel in column `i` and row `j`: the mean of the
    /// colours that `samples_per_pixel` random rays through the pixel bring
    /// back from the scene `world`, as bytes.
    pub fn pixel_colour<W: Hittable>(&self, i: u32, j: u32, world: &W) -> (rgb: (u8, u8, u8))
        ensures
            self@.is_pixel(*world, i, j, rgb),
    {
        let mut pixel_colour = Vector::zero();
        let ghost mut samples: Seq<Vector> = Seq::empty();
        let mut k: u32 = 0;
        while k < self.samples_per_pixel
            invariant
                k <= self.samples_per_pixel,
                samples.len() == k,
                pixel_colour == CameraModel::spec_total(samples),
                forall|n: int|
                    0 <= n < samples.len() ==> self@.is_sample(*world, i, j, #[trigger] samples[n]),
            decreases self.samples_per_pixel - k,
        {
            let r = self.get_ray(i, j);
            let c = Camera::ray_colour(&r, self.max_depth, world);
            pixel_colour = pixel_colour.add(c);
            proof {
                assert(samples.push(c).drop_last() == samples);
                samples = samples.push(c);
            }
            k = k + 1;
        }
        let rgb = get_colour(&pixel_colour.mul(self.pixel_samples_scale));
        proof {
            crate::colour::lemma_channel_is_byte(
                CameraModel::spec_total(samples).spec_scale(self@.pixel_samples_scale).x,
            );
            crate::colour::lemma_channel_is_byte(
                CameraModel::spec_total(samples).spec_scale(self@.pixel_samples_scale).y,
            );
            crate::colour::lemma_channel_is_byte(
                CameraModel::spec_total(samples).spec_scale(self@.pixel_samples_scale).z,
            );
            assert(rgb == self@.spec_pixel(samples));
        }
        rgb
    }

    /// The image of the scene `world`: every pixel has the colour that
    /// [`Camera::pixel_colour`] finds for it.
    pub fn render<W: Hittable>(&self, world: &W) -> (canvas: Canvas)
        ensures
            canvas_width(canvas) == self@.image_width,
            canvas_height(canvas) == self@.image_height,
            canvas_pixels(canvas).len() == self@.image_width * self@.image_height,
            forall|i: u32, j: u32|
                i < self@.image_width && j < self@.image_height ==> self@.is_pixel(
                    *world,
                    i,
                    j,
                    #[trigger] pixel_at(canvas, i, j),
                ),
    {
        proof {
            use_type_invariant(self);
        }
        let width = self.image_width as u32;
        let height = self.image_height as u32;
        assert(3 * width * height == 3 * (width * height)) by (nonlinear_arith);
        let mut canvas = Canvas::new(width, height).unwrap();
        let mut j: u32 = 0;
        while j < height
            invariant
                j <= height,
                width == self@.image_width,
                height == self@.image_height,
                canvas_width(canvas) == width,
                canvas_height(canvas) == height,
                canvas_pixels(canvas).len() == width * height,
                forall|x: u32, y: u32|
                    x < width && y < j ==> self@.is_pixel(
                        *world,
                        x,
                        y,
                        #[trigger] pixel_at(canvas, x, y),
                    ),
            decreases height - j,
        {
            let mut i: u32 = 0;
            while i < width
                invariant
                    i <= width,
                    j < height,
                    width == self@.image_width,
                    height == self@.image_height,
                    canvas_width(canvas) == width,
                    canvas_height(canvas) == height,
                    canvas_pixels(canvas).len() == width * height,
                    forall|x: u32, y: u32|
                        x < width && (y < j || (y == j && x < i)) ==> self@.is_pixel(
                            *world,
                            x,
                            y,
                            #[trigger] pixel_at(canvas, x, y),
                        ),
                decreases width - i,
            {
                let rgb = self.pixel_colour(i, j, world);
                let ghost before = canvas;
                canvas.set_pixel(i, j, rgb);
                proof {
                    lemma_pixel_index(width as int, height as int, i as int, j as int);
                    assert forall|x: u32, y: u32|
                        x < width && (y < j || (y == j && x < i + 1)) implies self@.is_pixel(
                        *world,
                        x,
                        y,
                        #[trigger] pixel_at(canvas, x, y),
                    ) by {
                        lemma_pixel_index(width as int, height as int, x as int, y as int);
                        if pixel_index(width as int, x as int, y as int) == pixel_index(
                            width as int,
                            i as int,
                            j as int,
                        ) {
                            lemma_pixel_index_injective(
                                width as int,
                                x as int,
                                y as int,
                                i as int,
                                j as int,
                            );
                        }
                        if x == i && y == j {
                            assert(pixel_at(canvas, x, y) == rgb);
                        } else {
                            assert(pixel_at(canvas, x, y) == pixel_at(before, x, y));
                        }
                    }
                }
                i = i + 1;
            }
            j = j + 1;
        }
        canvas
    }
}

} // verus!
