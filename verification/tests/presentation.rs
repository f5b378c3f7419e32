use ecs::presentation::{
    is_suitable, pick_extent, pick_image_count, pick_physical_device, pick_present_mode, pick_queue_families,
    pick_surface_format, queue_indices, Extent, QueueFamily, QueueSelection, SurfaceFormat,
    COLOR_SPACE_SRGB_NONLINEAR, FORMAT_B8G8R8A8_UNORM, PRESENT_MODE_FIFO, PRESENT_MODE_MAILBOX,
};

fn family(graphics: bool, present: bool) -> QueueFamily {
    QueueFamily { graphics, present }
}

#[test]
fn queue_families_take_the_first_of_each_kind() {
    let families = vec![
        family(false, false),
        family(true, false),
        family(true, true),
        family(false, true),
    ];
    assert_eq!(
        pick_queue_families(&families),
        Some(QueueSelection { graphics: 1, present: 2 })
    );
}

#[test]
fn one_family_may_serve_both() {
    let families = vec![family(true, true), family(true, false)];
    assert_eq!(
        pick_queue_families(&families),
        Some(QueueSelection { graphics: 0, present: 0 })
    );
}

#[test]
fn queue_families_need_both_kinds() {
    assert_eq!(pick_queue_families(&vec![]), None);
    assert_eq!(pick_queue_families(&vec![family(true, false)]), None);
    assert_eq!(pick_queue_families(&vec![family(false, true), family(false, true)]), None);
}

#[test]
fn a_device_is_suitable_with_graphics_and_present() {
    assert!(is_suitable(&vec![family(true, true)]));
    assert!(is_suitable(&vec![family(false, true), family(false, false), family(true, false)]));
    assert!(!is_suitable(&vec![]));
    assert!(!is_suitable(&vec![family(true, false), family(true, false)]));
    assert!(!is_suitable(&vec![family(false, true)]));
}

#[test]
fn first_suitable_device_is_picked() {
    let devices = vec![
        vec![family(true, false)],
        vec![],
        vec![family(false, true), family(true, false)],
        vec![family(true, true)],
    ];
    assert_eq!(pick_physical_device(&devices), Some(2));
}

#[test]
fn no_suitable_device() {
    assert_eq!(pick_physical_device(&vec![]), None);
    assert_eq!(pick_physical_device(&vec![vec![family(true, false)], vec![]]), None);
}

#[test]
fn queue_indices_are_not_repeated() {
    assert_eq!(queue_indices(QueueSelection { graphics: 2, present: 2 }), vec![2]);
    assert_eq!(queue_indices(QueueSelection { graphics: 0, present: 3 }), vec![0, 3]);
    assert_eq!(queue_indices(QueueSelection { graphics: 3, present: 0 }), vec![3, 0]);
}

#[test]
fn preferred_surface_format_wins() {
    let formats = vec![
        SurfaceFormat { format: 37, color_space: COLOR_SPACE_SRGB_NONLINEAR },
        SurfaceFormat { format: FORMAT_B8G8R8A8_UNORM, color_space: 1000104001 },
        SurfaceFormat { format: FORMAT_B8G8R8A8_UNORM, color_space: COLOR_SPACE_SRGB_NONLINEAR },
        SurfaceFormat { format: FORMAT_B8G8R8A8_UNORM, color_space: COLOR_SPACE_SRGB_NONLINEAR },
    ];
    assert_eq!(pick_surface_format(&formats), 2);
}

#[test]
fn first_surface_format_is_the_fallback() {
    let formats = vec![
        SurfaceFormat { format: 37, color_space: COLOR_SPACE_SRGB_NONLINEAR },
        SurfaceFormat { format: 50, color_space: COLOR_SPACE_SRGB_NONLINEAR },
    ];
    assert_eq!(pick_surface_format(&formats), 0);
}

#[test]
fn surface_constants_have_their_raw_values() {
    assert_eq!(FORMAT_B8G8R8A8_UNORM, 44);
    assert_eq!(COLOR_SPACE_SRGB_NONLINEAR, 0);
    assert_eq!(PRESENT_MODE_MAILBOX, 1);
    assert_eq!(PRESENT_MODE_FIFO, 2);
}

#[test]
fn mailbox_is_taken_where_offered() {
    assert_eq!(pick_present_mode(&vec![0, 2, 1, 3]), PRESENT_MODE_MAILBOX);
    assert_eq!(pick_present_mode(&vec![1]), PRESENT_MODE_MAILBOX);
}

#[test]
fn fifo_is_the_fallback() {
    assert_eq!(pick_present_mode(&vec![0, 2, 3]), PRESENT_MODE_FIFO);
    assert_eq!(pick_present_mode(&vec![0, 3]), PRESENT_MODE_FIFO);
    assert_eq!(pick_present_mode(&vec![]), PRESENT_MODE_FIFO);
}

#[test]
fn fixed_extent_is_kept() {
    let current = Extent { width: 800, height: 600 };
    let smallest = Extent { width: 1000, height: 1000 };
    let largest = Extent { width: 2000, height: 2000 };
    let window = Extent { width: 1500, height: 1500 };
    assert_eq!(pick_extent(current, smallest, largest, window), current);
}

#[test]
fn open_extent_follows_the_window_within_limits() {
    let open = Extent { width: u32::MAX, height: u32::MAX };
    let smallest = Extent { width: 100, height: 200 };
    let largest = Extent { width: 1920, height: 1080 };
    assert_eq!(
        pick_extent(open, smallest, largest, Extent { width: 800, height: 600 }),
        Extent { width: 800, height: 600 }
    );
    assert_eq!(
        pick_extent(open, smallest, largest, Extent { width: 4000, height: 10 }),
        Extent { width: 1920, height: 200 }
    );
    assert_eq!(
        pick_extent(open, smallest, largest, Extent { width: 0, height: 5000 }),
        Extent { width: 100, height: 1080 }
    );
}

#[test]
fn open_extent_with_crossed_limits_takes_the_lower_one() {
    let open = Extent { width: u32::MAX, height: 0 };
    let smallest = Extent { width: 500, height: 500 };
    let largest = Extent { width: 300, height: 300 };
    assert_eq!(
        pick_extent(open, smallest, largest, Extent { width: 400, height: 100 }),
        Extent { width: 500, height: 500 }
    );
}

#[test]
fn image_count_is_one_over_the_minimum() {
    assert_eq!(pick_image_count(2, 0), 3);
    assert_eq!(pick_image_count(2, 8), 3);
    assert_eq!(pick_image_count(0, 0), 1);
}

#[test]
fn image_count_stays_within_the_limit() {
    assert_eq!(pick_image_count(2, 2), 2);
    assert_eq!(pick_image_count(3, 4), 4);
    assert_eq!(pick_image_count(5, 1), 1);
}
