use raytracer::camera::viewport_width;
use raytracer::image::PPMImage;

#[test]
fn viewport_width_of_the_default_image_is_the_viewport_height() {
    let image = PPMImage::new(400, 225);
    assert_eq!(viewport_width(2, &image), 2);
}

#[test]
fn viewport_width_truncates_the_ratio_of_the_sides() {
    assert_eq!(viewport_width(2, &PPMImage::new(449, 225)), 2);
    assert_eq!(viewport_width(2, &PPMImage::new(450, 225)), 4);
    assert_eq!(viewport_width(3, &PPMImage::new(1000, 100)), 30);
    assert_eq!(viewport_width(5, &PPMImage::new(7, 7)), 5);
}

#[test]
fn viewport_width_of_an_image_higher_than_wide_is_zero() {
    assert_eq!(viewport_width(2, &PPMImage::new(225, 400)), 0);
    assert_eq!(viewport_width(1000, &PPMImage::new(0, 1)), 0);
}

#[test]
fn viewport_width_of_a_viewport_without_height_is_zero() {
    assert_eq!(viewport_width(0, &PPMImage::new(400, 225)), 0);
}

#[test]
fn viewport_width_reaches_the_largest_value() {
    assert_eq!(viewport_width(1, &PPMImage::new(u32::MAX, 1)), u32::MAX);
    assert_eq!(viewport_width(u32::MAX, &PPMImage::new(3, 2)), u32::MAX);
}
