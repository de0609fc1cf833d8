use image::GenericImageView;
use raw_lite_core::batch::BatchRun;
use raw_lite_core::{decode_picture, encode_picture, next_name_step, output_file_name, render_jpeg, CreateResult, NameStep, ConversionOptions, ConversionProgress, ConversionSummary};

fn ppm(width: u32, height: u32) -> Vec<u8> {
    let mut bytes = format!("P6\n{width} {height}\n255\n").into_bytes();
    bytes.extend((0..width * height).flat_map(|pixel| {
        let value = (pixel % 255) as u8;
        [value, 255 - value, value / 2]
    }));
    bytes
}

/// Runs a batch in memory: `decode` stands for the decoder, and each JPEG
/// is kept under the first free name instead of being written to disk.
fn run_batch(
    inputs: &[&str],
    options: ConversionOptions,
    mut decode: impl FnMut(&str) -> Result<Vec<u8>, String>,
    mut progress: impl FnMut(ConversionProgress),
) -> (ConversionSummary, Vec<(String, Vec<u8>)>) {
    let mut written: Vec<(String, Vec<u8>)> = Vec::new();
    let mut run = BatchRun::start(inputs.iter().map(|s| s.to_string()).collect(), true).unwrap();
    while let Some(input) = run.next_input().cloned() {
        let outcome = decode(&input).and_then(|bytes| render_jpeg(&bytes, options)).and_then(|jpeg| {
            let mut number = 1;
            loop {
                let name = output_file_name(&input, number)?;
                if !written.iter().any(|(existing, _)| *existing == name) {
                    written.push((name.clone(), jpeg));
                    return Ok(name);
                }
                number += 1;
            }
        });
        progress(run.record(outcome));
    }
    (run.finish(), written)
}

#[test]
fn converts_ppm_to_bounded_jpeg() {
    let options = ConversionOptions::new(2, 75).unwrap();

    let (summary, written) = run_batch(&["photo.dng"], options, |_| Ok(ppm(4, 2)), |_| {});

    assert_eq!(summary.converted.len(), 1);
    assert!(summary.failed.is_empty());
    assert_eq!(summary.converted[0].output, "photo.jpg");
    assert_eq!(
        image::load_from_memory(&written[0].1).unwrap().dimensions(),
        (2, 1)
    );
}

#[test]
fn does_not_upscale_small_images() {
    let (summary, written) = run_batch(
        &["photo.dng"],
        ConversionOptions::new(2000, 75).unwrap(),
        |_| Ok(ppm(4, 2)),
        |_| {},
    );

    assert_eq!(summary.converted.len(), 1);
    assert_eq!(
        image::load_from_memory(&written[0].1).unwrap().dimensions(),
        (4, 2)
    );
}

#[test]
fn continues_after_failure_and_reports_each_progress_step() {
    let mut progress = Vec::new();

    let (summary, _) = run_batch(
        &["bad.dng", "good.dng"],
        ConversionOptions::new(2000, 75).unwrap(),
        |input| {
            if input == "bad.dng" {
                Err("decoder rejected file".into())
            } else {
                Ok(ppm(2, 1))
            }
        },
        |step| progress.push(step),
    );

    assert_eq!(summary.converted.len(), 1);
    assert_eq!(summary.failed.len(), 1);
    assert_eq!(summary.failed[0].reason, "decoder rejected file");
    assert_eq!(progress.len(), 2);
    assert_eq!(
        (
            progress[0].processed,
            progress[0].total,
            progress[0].succeeded
        ),
        (1, 2, false)
    );
    assert_eq!(
        (
            progress[1].processed,
            progress[1].total,
            progress[1].succeeded
        ),
        (2, 2, true)
    );
}

#[test]
fn invalid_decoder_output_is_a_failure() {
    let (summary, written) = run_batch(
        &["broken.dng"],
        ConversionOptions::new(2000, 75).unwrap(),
        |_| Ok(b"not an image".to_vec()),
        |_| {},
    );

    assert!(summary.converted.is_empty());
    assert_eq!(summary.failed.len(), 1);
    assert!(summary.failed[0].reason.starts_with("invalid decoder output: "));
    assert!(written.is_empty());
}

#[test]
fn second_output_with_the_same_stem_gets_a_number() {
    let (summary, written) = run_batch(
        &["a/photo.dng", "b/photo.NEF", "c/photo.cr2"],
        ConversionOptions::new(2000, 75).unwrap(),
        |_| Ok(ppm(2, 1)),
        |_| {},
    );

    let outputs: Vec<&str> = summary.converted.iter().map(|c| c.output.as_str()).collect();
    assert_eq!(outputs, ["photo.jpg", "photo-2.jpg", "photo-3.jpg"]);
    assert_eq!(written.len(), 3);
}

#[test]
fn output_names_count_up_from_the_stem() {
    assert_eq!(output_file_name("/in/photo.dng", 1).unwrap(), "photo.jpg");
    assert_eq!(output_file_name("/in/photo.dng", 2).unwrap(), "photo-2.jpg");
    assert_eq!(output_file_name("/in/photo.tar.dng", 10).unwrap(), "photo.tar-10.jpg");
    assert_eq!(output_file_name("/in/.dng", 1).unwrap(), ".dng.jpg");
    assert_eq!(output_file_name("x", 4294967295).unwrap(), "x-4294967295.jpg");
    assert_eq!(output_file_name("/", 1).unwrap_err(), "input has no filename");
    assert_eq!(output_file_name("a/..", 1).unwrap_err(), "input has no filename");
}

#[test]
fn rendering_keeps_quality_and_bounds() {
    let options = ConversionOptions::new(3, 100).unwrap();
    let jpeg = render_jpeg(&ppm(9, 6), options).unwrap();
    assert_eq!(&jpeg[..2], &[0xFF, 0xD8]);
    assert_eq!(image::load_from_memory(&jpeg).unwrap().dimensions(), (3, 2));
    let err = render_jpeg(b"P6\n", options).unwrap_err();
    assert!(err.starts_with("invalid decoder output: "));
}

#[test]
fn batch_outside_a_directory_is_refused() {
    let refused = BatchRun::start(vec!["photo.dng".to_owned()], false);
    assert_eq!(refused.err().unwrap().message(), "output path must be a directory");
}

#[test]
fn every_input_is_accounted_for_once() {
    let inputs = ["a.dng", "b.dng", "c.dng", "d.dng"];
    let (summary, _) = run_batch(
        &inputs,
        ConversionOptions::new(100, 50).unwrap(),
        |input| if input.starts_with('b') || input.starts_with('d') { Err(format!("no {input}")) } else { Ok(ppm(1, 1)) },
        |_| {},
    );
    assert_eq!(summary.converted.len() + summary.failed.len(), inputs.len());
    let converted: Vec<&str> = summary.converted.iter().map(|c| c.input.as_str()).collect();
    let failed: Vec<(&str, &str)> = summary.failed.iter().map(|f| (f.input.as_str(), f.reason.as_str())).collect();
    assert_eq!(converted, ["a.dng", "c.dng"]);
    assert_eq!(failed, [("b.dng", "no b.dng"), ("d.dng", "no d.dng")]);
}

#[test]
fn shrinking_makes_the_long_edge_the_bound() {
    let options = ConversionOptions::new(3, 75).unwrap();
    let wide = decode_picture(&ppm(9, 6), options).unwrap();
    assert_eq!((wide.width(), wide.height()), (3, 2));
    let tall = decode_picture(&ppm(2, 7), options).unwrap();
    assert_eq!(tall.height(), 3);
    assert!(tall.width() >= 1 && tall.width() <= 3);
    let small = decode_picture(&ppm(3, 1), options).unwrap();
    assert_eq!((small.width(), small.height()), (3, 1));
    let jpeg = encode_picture(&wide, 75).unwrap();
    assert_eq!(image::load_from_memory(&jpeg).unwrap().dimensions(), (3, 2));
    assert!(decode_picture(b"garbage", options).err().unwrap().starts_with("invalid decoder output: "));
}

#[test]
fn quality_is_handed_to_the_encoder() {
    let options = ConversionOptions::new(100, 10).unwrap();
    let picture = decode_picture(&ppm(40, 30), options).unwrap();
    let low = encode_picture(&picture, 10).unwrap();
    let high = encode_picture(&picture, 100).unwrap();
    assert_ne!(low, high);
    assert_eq!(render_jpeg(&ppm(40, 30), options).unwrap(), low);
}

#[test]
fn empty_picture_cannot_be_encoded() {
    let options = ConversionOptions::new(100, 75).unwrap();
    match decode_picture(&ppm(0, 0), options) {
        Ok(picture) => {
            assert_eq!((picture.width(), picture.height()), (0, 0));
            assert!(encode_picture(&picture, 75).err().unwrap().starts_with("could not write JPEG: "));
            assert!(render_jpeg(&ppm(0, 0), options).err().unwrap().starts_with("could not write JPEG: "));
        }
        Err(reason) => {
            assert!(reason.starts_with("invalid decoder output: "));
            assert!(render_jpeg(&ppm(0, 0), options).err().unwrap().starts_with("invalid decoder output: "));
        }
    }
}

#[test]
fn shrinking_keeps_the_aspect_ratio() {
    let options = ConversionOptions::new(2, 75).unwrap();
    let picture = decode_picture(&ppm(4, 2), options).unwrap();
    assert_eq!((picture.width(), picture.height()), (2, 1));
    let options = ConversionOptions::new(100, 75).unwrap();
    let picture = decode_picture(&ppm(1000, 1), options).unwrap();
    assert_eq!((picture.width(), picture.height()), (100, 1));
    let picture = decode_picture(&ppm(30, 301), options).unwrap();
    assert_eq!((picture.width(), picture.height()), (10, 100));
}

#[test]
fn taken_names_move_on_and_other_errors_stop() {
    assert_eq!(next_name_step(CreateResult::Created, 1), NameStep::Done);
    assert_eq!(next_name_step(CreateResult::AlreadyExists, 1), NameStep::Try(2));
    assert_eq!(next_name_step(CreateResult::AlreadyExists, u32::MAX), NameStep::GiveUp);
    assert_eq!(next_name_step(CreateResult::Failed, 7), NameStep::Stop);
}
