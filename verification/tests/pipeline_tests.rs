use perceptron::pipeline::{
    build_dataset, build_frame, level_size, Action, Event, Pipeline, PixelDrawInstruction, Sample, Stage, LEVELS,
};

#[test]
fn level_size_is_the_share_of_each_side_rounded_down() {
    assert_eq!(level_size(474, 316, 1), (4, 3));
    assert_eq!(level_size(474, 316, 29), (137, 91));
    assert_eq!(level_size(474, 316, 50), (237, 158));
    assert_eq!(level_size(474, 316, 99), (469, 312));
}

#[test]
fn last_level_has_the_size_of_the_source() {
    assert_eq!(level_size(474, 316, LEVELS), (474, 316));
    assert_eq!(level_size(u32::MAX, 1, LEVELS), (u32::MAX, 1));
}

#[test]
fn small_sources_have_empty_first_levels() {
    assert_eq!(level_size(2, 2, 49), (0, 0));
    assert_eq!(level_size(2, 2, 50), (1, 1));
    assert_eq!(level_size(2, 2, 100), (2, 2));
}

#[test]
fn first_event_starts_level_one() {
    let mut pipeline = Pipeline::new(474, 316);

    assert_eq!(pipeline.stage(), Stage::Start);
    assert_eq!(pipeline.step(Event::Begin), Action::Prepare { level: 1, width: 4, height: 3 });
    assert_eq!(pipeline.stage(), Stage::Preparing(1));
}

#[test]
fn level_is_trained_until_it_converges() {
    let mut pipeline = Pipeline::new(474, 316);
    pipeline.step(Event::Begin);

    assert_eq!(pipeline.step(Event::Prepared), Action::Train);
    for _ in 0..5 {
        assert_eq!(pipeline.step(Event::Trained { converged: false }), Action::Train);
        assert_eq!(pipeline.stage(), Stage::Training(1));
    }
    assert_eq!(
        pipeline.step(Event::Trained { converged: true }),
        Action::Prepare { level: 2, width: 9, height: 6 }
    );
    assert_eq!(pipeline.stage(), Stage::Preparing(2));
}

#[test]
fn unexpected_event_repeats_the_pending_action() {
    let mut pipeline = Pipeline::new(474, 316);
    pipeline.step(Event::Begin);

    assert_eq!(
        pipeline.step(Event::Trained { converged: true }),
        Action::Prepare { level: 1, width: 4, height: 3 }
    );
    assert_eq!(pipeline.step(Event::Begin), Action::Prepare { level: 1, width: 4, height: 3 });
    pipeline.step(Event::Prepared);
    assert_eq!(pipeline.step(Event::Prepared), Action::Train);
    assert_eq!(pipeline.step(Event::Begin), Action::Train);
    assert_eq!(pipeline.stage(), Stage::Training(1));
}

#[test]
fn pipeline_runs_through_every_level_and_stops() {
    let mut pipeline = Pipeline::new(474, 316);
    let mut action = pipeline.step(Event::Begin);

    for expected in 1..=LEVELS {
        assert!(!pipeline.is_done());
        assert_eq!(
            action,
            Action::Prepare { level: expected, width: 474 * expected / 100, height: 316 * expected / 100 }
        );
        assert_eq!(pipeline.step(Event::Prepared), Action::Train);
        action = pipeline.step(Event::Trained { converged: true });
    }

    assert_eq!(action, Action::Stop);
    assert!(pipeline.is_done());
    assert_eq!(pipeline.step(Event::Begin), Action::Stop);
    assert_eq!(pipeline.step(Event::Trained { converged: true }), Action::Stop);
    assert!(pipeline.is_done());
}

#[test]
fn dataset_of_a_two_by_two_image_has_four_samples() {
    let pixels = [[255, 0, 0, 255], [0, 255, 0, 128], [0, 0, 255, 0], [51, 102, 204, 255]];
    let (width, height) = level_size(2, 2, LEVELS);

    let dataset = build_dataset(width, height, &pixels);

    assert_eq!(dataset.len(), 4);
    let inputs: Vec<(f32, f32)> = dataset
        .iter()
        .map(|s| (s.x as f32 / s.width as f32, s.y as f32 / s.height as f32))
        .collect();
    assert_eq!(inputs, vec![(0., 0.), (0.5, 0.), (0., 0.5), (0.5, 0.5)]);
    for (sample, pixel) in dataset.iter().zip(pixels) {
        let output = [sample.red as f32 / 255., sample.green as f32 / 255., sample.blue as f32 / 255.];
        assert_eq!(output, [pixel[0] as f32 / 255., pixel[1] as f32 / 255., pixel[2] as f32 / 255.]);
    }
    assert_eq!(dataset[3], Sample { x: 1, y: 1, width: 2, height: 2, red: 51, green: 102, blue: 204 });
}

#[test]
fn dataset_lists_the_pixels_row_by_row() {
    let pixels: Vec<[u8; 4]> = (0..6).map(|k| [k, 10 + k, 20 + k, 255]).collect();

    let dataset = build_dataset(3, 2, &pixels);

    for y in 0..2u32 {
        for x in 0..3u32 {
            let k = (y * 3 + x) as usize;
            assert_eq!(
                dataset[k],
                Sample { x, y, width: 3, height: 2, red: k as u8, green: 10 + k as u8, blue: 20 + k as u8 }
            );
        }
    }
}

#[test]
fn dataset_of_an_empty_level_is_empty() {
    assert_eq!(build_dataset(0, 0, &[]), vec![]);
    assert_eq!(build_dataset(0, 7, &[]), vec![]);
    assert_eq!(build_dataset(7, 0, &[]), vec![]);
}

#[test]
fn frame_has_one_instruction_per_pixel() {
    let predictions = [[0.1f32, 0.2, 0.3], [0.4, 0.5, 0.6], [0.7, 0.8, 0.9], [1., 0., 0.5], [0., 0., 0.], [1., 1., 1.]];

    let frame = build_frame(2, 3, &predictions);

    assert_eq!(frame.len(), 6);
    assert_eq!(frame[0], PixelDrawInstruction { x: 0, y: 0, r: 0.1, g: 0.2, b: 0.3, width: 2, height: 3 });
    assert_eq!(frame[1], PixelDrawInstruction { x: 1, y: 0, r: 0.4, g: 0.5, b: 0.6, width: 2, height: 3 });
    assert_eq!(frame[3], PixelDrawInstruction { x: 1, y: 1, r: 1., g: 0., b: 0.5, width: 2, height: 3 });
    assert_eq!(frame[5], PixelDrawInstruction { x: 1, y: 2, r: 1., g: 1., b: 1., width: 2, height: 3 });
}

#[test]
fn frame_of_an_empty_level_is_empty() {
    let nothing: [[f32; 3]; 0] = [];

    assert_eq!(build_frame(0, 4, &nothing), vec![]);
}
