use mobcam::convert::{copy, image, Grid, Image, Out, Plane, Source};
use mobcam::frame::{Frame, FrameColorspace, FramePlane, PictureFormat, SampleFormat};
use mobcam::v4l2::Format;

fn copied(plane: &[u8], stride: usize, grid: &Grid, shift: u32) -> Option<Vec<u8>> {
    let mut data = vec![0u8; grid.columns * grid.rows];
    let mut out = Out::new(&mut data);
    let plane = Plane { data: plane, stride };
    copy(&mut out, &plane, grid, shift).then_some(data)
}

#[test]
fn whole_rows_ignore_the_padding_a_stride_adds() {
    let plane = [1, 2, 3, 99, 4, 5, 6, 99];
    let grid = Grid::direct(3, 2);
    assert_eq!(copied(&plane, 4, &grid, 0), Some(vec![1, 2, 3, 4, 5, 6]));
}

#[test]
fn interleaved_chroma_splits_into_two_planes() {
    // One row of U0 V0 U1 V1, with a byte of stride padding.
    let plane = [10, 20, 11, 21, 99];
    let grid = Grid::direct(2, 1);
    assert_eq!(copied(&plane, 5, &grid.component(0), 0), Some(vec![10, 11]));
    assert_eq!(copied(&plane, 5, &grid.component(1), 0), Some(vec![20, 21]));
}

#[test]
fn interleaved_chroma_is_kept_whole_when_the_camera_takes_it() {
    // Two rows of U0 V0 U1 V1, with two bytes of stride padding.
    let plane = [10, 20, 11, 21, 99, 99, 12, 22, 13, 23, 99, 99];
    let grid = Grid::direct(4, 2);
    let kept = vec![10, 20, 11, 21, 12, 22, 13, 23];
    assert_eq!(copied(&plane, 6, &grid, 0), Some(kept));
}

#[test]
fn every_other_row_and_column_is_kept() {
    let plane: Vec<u8> = (0..16).collect();
    let grid = Grid {
        columns: 2,
        rows: 2,
        column_step: 2,
        row_step: 2,
        offset: 0,
    };
    assert_eq!(copied(&plane, 4, &grid, 0), Some(vec![0, 2, 8, 10]));
}

#[test]
fn ten_bit_samples_narrow_to_eight() {
    // 1023 and 512 in the low bits, as I010 stores them.
    let plane = [0xff, 0x03, 0x00, 0x02];
    assert_eq!(copied(&plane, 4, &Grid::direct(2, 1), 2), Some(vec![255, 128]));
    // The same values in the high bits, as P010 stores them.
    let plane = [0xc0, 0xff, 0x00, 0x80];
    assert_eq!(copied(&plane, 4, &Grid::direct(2, 1), 8), Some(vec![255, 128]));
}

#[test]
fn a_plane_that_is_too_short_is_refused() {
    assert_eq!(copied(&[1, 2, 3], 4, &Grid::direct(4, 1), 0), None);
    assert_eq!(copied(&[1, 2, 3, 4], 4, &Grid::direct(3, 2), 0), None);
}

#[test]
fn the_needed_source_size_counts_the_steps() {
    let grid = Grid {
        columns: 3,
        rows: 4,
        column_step: 2,
        row_step: 2,
        offset: 1,
    };
    assert_eq!(grid.source_rows(), Some(7));
    assert_eq!(grid.source_columns(), Some(6));
}

fn picture<'a>(width: i32, height: i32, format: PictureFormat, planes: Vec<FramePlane<'a>>) -> Frame<'a> {
    Frame {
        width,
        height,
        picture_format: format,
        colorspace: FrameColorspace::Other,
        full_range: false,
        pts: 0,
        sample_format: SampleFormat::Other(-1),
        sample_rate: 0,
        channels: 0,
        samples: 0,
        planes,
    }
}

fn written(image: Image, frame: &Frame) -> Option<Vec<u8>> {
    let mut out = vec![0u8; image.size()];
    image.write(frame, &mut out).then_some(out)
}

#[test]
fn odd_dimensions_round_down_to_even() {
    let frame = picture(5, 3, PictureFormat::Yuv420p, Vec::new());
    let image = image(&frame, false).expect("a known layout");
    assert_eq!((image.width, image.height, image.format), (4, 2, Format::I420));
    assert_eq!(image.size(), 12);
    assert!(!image.passes_through());
}

#[test]
fn frames_too_small_or_of_unknown_layout_have_no_image() {
    assert_eq!(image(&picture(1, 8, PictureFormat::Yuv420p, Vec::new()), false), None);
    assert_eq!(image(&picture(-4, 8, PictureFormat::Yuv420p, Vec::new()), false), None);
    assert_eq!(image(&picture(8, 8, PictureFormat::Other(-1), Vec::new()), true), None);
}

#[test]
fn each_decoded_layout_has_its_conversion() {
    let source = |format, nv12| image(&picture(4, 4, format, Vec::new()), nv12).map(|image| (image.format, image.source));
    assert_eq!(source(PictureFormat::Nv12, true), Some((Format::Nv12, Source::AsIs)));
    assert_eq!(source(PictureFormat::Nv12, false), Some((Format::I420, Source::SemiPlanar)));
    assert_eq!(source(PictureFormat::Yuv420p, true), Some((Format::I420, Source::Planar)));
    assert_eq!(source(PictureFormat::Yuvj420p, false), Some((Format::I420, Source::Planar)));
    assert_eq!(source(PictureFormat::Nv21, false), Some((Format::I420, Source::SemiPlanarSwapped)));
    assert_eq!(source(PictureFormat::Yuv422p, false), Some((Format::I420, Source::PlanarTall)));
    assert_eq!(source(PictureFormat::Yuv444p, false), Some((Format::I420, Source::PlanarWide)));
    assert_eq!(source(PictureFormat::Yuv420p10le, false), Some((Format::I420, Source::PlanarTen)));
    assert_eq!(source(PictureFormat::P010le, false), Some((Format::I420, Source::SemiPlanarTen)));
    assert!(image(&picture(4, 4, PictureFormat::Nv12, Vec::new()), true).unwrap().passes_through());
}

#[test]
fn nv12_becomes_i420() {
    let luma = [1, 2, 0, 0, 3, 4, 0, 0];
    let chroma = [10, 20, 0, 0];
    let frame = picture(
        2,
        2,
        PictureFormat::Nv12,
        vec![FramePlane { data: &luma, linesize: 4 }, FramePlane { data: &chroma, linesize: 4 }],
    );
    let converted = image(&frame, false).unwrap();
    assert_eq!(written(converted, &frame), Some(vec![1, 2, 3, 4, 10, 20]));
    let kept = image(&frame, true).unwrap();
    assert_eq!(written(kept, &frame), Some(vec![1, 2, 3, 4, 10, 20]));
}

#[test]
fn nv21_swaps_the_chroma() {
    let luma = [1, 2, 3, 4];
    let chroma = [20, 10];
    let frame = picture(
        2,
        2,
        PictureFormat::Nv21,
        vec![FramePlane { data: &luma, linesize: 2 }, FramePlane { data: &chroma, linesize: 2 }],
    );
    let image = image(&frame, false).unwrap();
    assert_eq!(written(image, &frame), Some(vec![1, 2, 3, 4, 10, 20]));
}

#[test]
fn full_chroma_keeps_every_other_sample() {
    let luma = [1, 2, 3, 4];
    let u = [10, 11, 12, 13];
    let v = [20, 21, 22, 23];
    let frame = picture(
        2,
        2,
        PictureFormat::Yuv444p,
        vec![
            FramePlane { data: &luma, linesize: 2 },
            FramePlane { data: &u, linesize: 2 },
            FramePlane { data: &v, linesize: 2 },
        ],
    );
    let image = image(&frame, false).unwrap();
    assert_eq!(written(image, &frame), Some(vec![1, 2, 3, 4, 10, 20]));
}

#[test]
fn p010_narrows_every_plane() {
    let luma = [0x00, 0x40, 0x00, 0x80, 0x00, 0xc0, 0xc0, 0xff];
    let chroma = [0x00, 0x10, 0x00, 0x20];
    let frame = picture(
        2,
        2,
        PictureFormat::P010le,
        vec![FramePlane { data: &luma, linesize: 4 }, FramePlane { data: &chroma, linesize: 4 }],
    );
    let image = image(&frame, false).unwrap();
    assert_eq!(written(image, &frame), Some(vec![0x40, 0x80, 0xc0, 0xff, 0x10, 0x20]));
}

#[test]
fn a_missing_plane_or_a_wrong_buffer_is_refused() {
    let luma = [1, 2, 3, 4];
    let frame = picture(2, 2, PictureFormat::Yuv420p, vec![FramePlane { data: &luma, linesize: 2 }]);
    let image = image(&frame, false).unwrap();
    assert_eq!(written(image, &frame), None);
    let chroma = [9];
    let whole = picture(
        2,
        2,
        PictureFormat::Yuv420p,
        vec![
            FramePlane { data: &luma, linesize: 2 },
            FramePlane { data: &chroma, linesize: 1 },
            FramePlane { data: &chroma, linesize: 1 },
        ],
    );
    assert_eq!(written(image, &whole), Some(vec![1, 2, 3, 4, 9, 9]));
    let mut short = vec![0u8; 5];
    assert!(!image.write(&whole, &mut short));
}
