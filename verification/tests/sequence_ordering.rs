use manzar::image_sequence::ImageSequenceItem;
use manzar::sequence_ordering::{
    compare_images, natural_str_order, sort_images, Comparison, SequenceOrdering,
};

const SECOND: i128 = 1_000_000_000;

fn image(name: &str, modified_seconds: i128, size_bytes: u64) -> ImageSequenceItem {
    ImageSequenceItem::new(name.to_string(), modified_seconds * SECOND, size_bytes)
}

fn names(images: &[ImageSequenceItem]) -> Vec<String> {
    images
        .iter()
        .map(|image| {
            std::path::Path::new(&image.path)
                .file_name()
                .unwrap()
                .to_string_lossy()
                .to_string()
        })
        .collect()
}

#[test]
fn natural_name_ordering_is_case_insensitive_and_numeric() {
    let mut images = vec![
        image("Image10.png", 1, 1),
        image("image2.png", 1, 1),
        image("image1.png", 1, 1),
    ];

    sort_images(&mut images, SequenceOrdering::NaturalName);

    assert_eq!(names(&images), vec!["image1.png", "image2.png", "Image10.png"]);
}

#[test]
fn newest_modified_first_ordering_prefers_recent_images() {
    let mut images = vec![
        image("older.png", 10, 1),
        image("newer.png", 30, 1),
        image("middle.png", 20, 1),
    ];

    sort_images(&mut images, SequenceOrdering::NewestModifiedFirst);

    assert_eq!(names(&images), vec!["newer.png", "middle.png", "older.png"]);
}

#[test]
fn size_ordering_supports_largest_and_smallest_first() {
    let images = vec![
        image("small.png", 1, 10),
        image("large.png", 1, 30),
        image("middle.png", 1, 20),
    ];

    let mut largest_first = images;
    sort_images(&mut largest_first, SequenceOrdering::SizeLargestFirst);
    assert_eq!(names(&largest_first), vec!["large.png", "middle.png", "small.png"]);

    let mut smallest_first = largest_first;
    sort_images(&mut smallest_first, SequenceOrdering::SizeSmallestFirst);
    assert_eq!(names(&smallest_first), vec!["small.png", "middle.png", "large.png"]);
}

#[test]
fn ordering_ties_fall_back_to_natural_name_ordering() {
    let mut images = vec![
        image("image10.png", 1, 10),
        image("image2.png", 1, 10),
        image("image1.png", 1, 10),
    ];

    sort_images(&mut images, SequenceOrdering::SizeLargestFirst);

    assert_eq!(names(&images), vec!["image1.png", "image2.png", "image10.png"]);
}

#[test]
fn natural_order_compares_digit_runs_as_numbers_and_letters_without_case() {
    assert_eq!(natural_str_order("image2", "image10"), Comparison::Less);
    assert_eq!(natural_str_order("image10", "image2"), Comparison::Greater);
    assert_eq!(natural_str_order("IMAGE", "image"), Comparison::Equal);
    assert_eq!(natural_str_order("a01", "a1"), Comparison::Greater);
    assert_eq!(natural_str_order("1b", "01"), Comparison::Equal);
    assert_eq!(natural_str_order("", "a"), Comparison::Less);
    assert_eq!(natural_str_order("", ""), Comparison::Equal);
    assert_eq!(natural_str_order("b", "A"), Comparison::Greater);
    assert_eq!(natural_str_order("Ä", "ä"), Comparison::Equal);
}

#[test]
fn natural_order_saturates_digit_runs_too_long_for_u128() {
    let huge = "9".repeat(60);
    let larger = format!("{}9", huge);
    assert_eq!(natural_str_order(&huge, &larger), Comparison::Less);
    let same_value = "340282366920938463463374607431768211455";
    let above = "340282366920938463463374607431768211456";
    assert_eq!(natural_str_order(same_value, above), Comparison::Equal);
}

#[test]
fn images_tied_by_ordering_and_name_fall_back_to_the_full_path() {
    let first = image("/a/photo.png", 5, 5);
    let second = image("/b/photo.png", 5, 5);
    assert_eq!(
        compare_images(&first, &second, SequenceOrdering::NewestModifiedFirst),
        Comparison::Less
    );
    assert_eq!(
        compare_images(&second, &first, SequenceOrdering::NewestModifiedFirst),
        Comparison::Greater
    );
    assert_eq!(
        compare_images(&first, &first, SequenceOrdering::NaturalName),
        Comparison::Equal
    );
}

#[test]
fn sorting_keeps_every_image_and_orders_by_the_primary_key() {
    let mut images = vec![
        image("c.png", 3, 300),
        image("a.png", 1, 100),
        image("b.png", 2, 300),
        image("d.png", 4, 200),
    ];
    sort_images(&mut images, SequenceOrdering::SizeLargestFirst);
    assert_eq!(names(&images), vec!["b.png", "c.png", "d.png", "a.png"]);
    let sizes: Vec<u64> = images.iter().map(|image| image.size_bytes).collect();
    assert_eq!(sizes, vec![300, 300, 200, 100]);

    let mut empty: Vec<ImageSequenceItem> = Vec::new();
    sort_images(&mut empty, SequenceOrdering::NaturalName);
    assert!(empty.is_empty());
}

#[test]
fn default_ordering_is_newest_modified_first() {
    assert_eq!(SequenceOrdering::default(), SequenceOrdering::NewestModifiedFirst);
}

#[test]
fn names_without_digits_sort_so_that_every_pair_is_in_order() {
    let mut images = vec![
        image("/photos/b/Zebra.png", 3, 30),
        image("/photos/a/apple.png", 1, 10),
        image("/photos/a/Apple.png", 2, 10),
        image("/photos/c/banana.jpg", 2, 20),
        image("/photos/c/apple.png", 1, 10),
    ];

    for ordering in [
        SequenceOrdering::NaturalName,
        SequenceOrdering::NewestModifiedFirst,
        SequenceOrdering::SizeLargestFirst,
        SequenceOrdering::SizeSmallestFirst,
    ] {
        sort_images(&mut images, ordering);
        for i in 0..images.len() {
            for j in i + 1..images.len() {
                assert_ne!(
                    compare_images(&images[i], &images[j], ordering),
                    Comparison::Greater,
                    "{ordering:?}: {} before {}",
                    images[i].path,
                    images[j].path
                );
            }
        }
    }

    sort_images(&mut images, SequenceOrdering::NaturalName);
    let paths: Vec<&str> = images.iter().map(|image| image.path.as_str()).collect();
    assert_eq!(
        paths,
        vec![
            "/photos/a/Apple.png",
            "/photos/a/apple.png",
            "/photos/c/apple.png",
            "/photos/c/banana.jpg",
            "/photos/b/Zebra.png",
        ]
    );
}

#[test]
fn natural_order_of_ascii_names_ignores_case() {
    for (left, right) in [("IMG_10.PNG", "img_9.png"), ("Beach.jpg", "beach.JPG"), ("a2b", "A10B")] {
        assert_eq!(
            natural_str_order(left, right),
            natural_str_order(&left.to_ascii_lowercase(), &right.to_ascii_lowercase()),
            "{left} vs {right}"
        );
    }
    assert_eq!(natural_str_order("Beach.jpg", "beach.JPG"), Comparison::Equal);
}

#[test]
fn plainly_numbered_names_sort_so_that_every_pair_is_in_order() {
    let mut images = vec![
        image("/p/img10.png", 1, 5),
        image("/p/IMG2.png", 2, 5),
        image("/p/img1b.png", 3, 5),
        image("/p/img1.png", 4, 5),
        image("/p/img1a.png", 5, 5),
        image("/p/img.png", 6, 5),
    ];

    sort_images(&mut images, SequenceOrdering::NaturalName);

    assert_eq!(
        names(&images),
        vec!["img.png", "img1.png", "img1a.png", "img1b.png", "IMG2.png", "img10.png"]
    );
    for i in 0..images.len() {
        for j in i + 1..images.len() {
            assert_ne!(
                compare_images(&images[i], &images[j], SequenceOrdering::NaturalName),
                Comparison::Greater
            );
        }
    }
}

#[test]
fn leading_zeros_can_make_natural_order_cyclic() {
    assert_eq!(natural_str_order("0001", "1a10"), Comparison::Equal);
    let first = image("/p/0001", 0, 0);
    let second = image("/p/1a10", 0, 0);
    let third = image("/p/1B", 0, 0);
    let ordering = SequenceOrdering::NaturalName;
    assert_eq!(compare_images(&first, &second, ordering), Comparison::Less);
    assert_eq!(compare_images(&second, &third, ordering), Comparison::Less);
    assert_eq!(compare_images(&third, &first, ordering), Comparison::Less);
}

#[test]
fn images_level_by_the_ordering_keep_their_relative_order() {
    let mut images = vec![
        image("/p/b.png", 5, 10),
        image("/p/same.png", 1, 10),
        image("/p/a.png", 5, 10),
        image("/p/same.png", 2, 10),
    ];

    sort_images(&mut images, SequenceOrdering::SizeLargestFirst);

    let order: Vec<(&str, i128)> =
        images.iter().map(|image| (image.path.as_str(), image.modified / SECOND)).collect();
    assert_eq!(order, vec![("/p/a.png", 5), ("/p/b.png", 5), ("/p/same.png", 1), ("/p/same.png", 2)]);
}
