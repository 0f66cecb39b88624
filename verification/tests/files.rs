use tensort::images::{extension_is_image, lowercase_is_image};
use tensort::results::{format_classified_images, format_missed_images, ClassifiedImagesFormatter};
use tensort::target_dir::classes_to_write;

fn texts(values: &[&str]) -> Vec<String> {
    values.iter().map(|v| v.to_string()).collect()
}

#[test]
fn extension_is_image_works() {
    assert!(extension_is_image("png"));
    assert!(extension_is_image("PNG"));
    assert!(extension_is_image("jpg"));
    assert!(extension_is_image("JPG"));
    assert!(extension_is_image("jpeg"));
    assert!(extension_is_image("JPEG"));
}

#[test]
fn extension_is_not_image_works() {
    assert!(!extension_is_image("txt"));
    assert!(!extension_is_image("BMP"));
}

#[test]
fn extension_is_image_in_mixed_case() {
    assert!(extension_is_image("JpEg"));
    assert!(extension_is_image("pNg"));
    assert!(!extension_is_image(""));
    assert!(!extension_is_image("jpg "));
    assert!(!extension_is_image(".jpg"));
    assert!(!extension_is_image("gif"));
    assert!(!extension_is_image("tiff"));
}

#[test]
fn lowercase_is_image_wants_lower_case() {
    assert!(lowercase_is_image(&"jpg".to_string()));
    assert!(lowercase_is_image(&"jpeg".to_string()));
    assert!(lowercase_is_image(&"png".to_string()));
    assert!(!lowercase_is_image(&"PNG".to_string()));
    assert!(!lowercase_is_image(&"bmp".to_string()));
}

#[test]
fn missed_images_are_listed() {
    let report = format_missed_images(texts(&["a/one.jpg", "b/two.png"]));
    assert_eq!(
        report.to_string(),
        "\nThe following images failed to process:\n\t=> a/one.jpg\n\t=> b/two.png\n"
    );
    assert_eq!(format_missed_images(vec![]).to_string(), "\nThe following images failed to process:\n");
}

#[test]
fn classified_images_are_listed_class_by_class() {
    let table = vec![vec![2, 0], vec![], vec![1]];
    let paths = texts(&["zero.jpg", "one.jpg", "two.jpg"]);
    let names = texts(&["tench (1)", "Empty class (2)", "Class 3"]);
    let report = format_classified_images(table.clone(), paths.clone(), names.clone());
    let expected = "tench (1):\n\t=> two.jpg\n\t=> zero.jpg\n\nEmpty class (2):\n\nClass 3:\n\t=> one.jpg\n\n";
    assert_eq!(report.to_string(), expected);
    assert_eq!(ClassifiedImagesFormatter::new(table, paths, names).to_string(), expected);
    assert_eq!(format_classified_images(vec![], vec![], vec![]).to_string(), "");
}

#[test]
fn classes_are_written_up_to_the_first_empty_one() {
    assert_eq!(classes_to_write(&vec![]), 0);
    assert_eq!(classes_to_write(&vec![vec![], vec![0]]), 0);
    assert_eq!(classes_to_write(&vec![vec![0], vec![1, 2]]), 2);
    assert_eq!(classes_to_write(&vec![vec![0], vec![], vec![1, 2]]), 1);
}
