use zaru::image::color::Color;
use zaru::image::raster::Image;
use zaru::image::rect::Rect;
use zaru::image::resolution::Resolution;
use zaru::image::view::AsImageView;
use zaru::nn::cnn::{Cnn, CnnError, CnnInputShape};
use zaru::nn::network::{Backend, InputInfo, Inputs, Loader, OutputInfo, Outputs};
use zaru::nn::tensor::Tensor;

fn linear_color_mapper(start: f32, end: f32) -> impl Fn(Color) -> [f32; 3] {
    assert!(end > start);
    let adjust_range = (end - start) / 255.0;
    move |color| {
        let rgb = [color.r(), color.g(), color.b()];
        rgb.map(|col| col as f32 * adjust_range + start)
    }
}

#[test]
fn cnn_accepts_one_image_input() {
    let cnn = Cnn::new(CnnInputShape::NCHW, 1, &[1, 3, 128, 256]).unwrap();
    assert_eq!(cnn.input_resolution(), Resolution::new(256, 128));
    assert_eq!(cnn.input_shape(), CnnInputShape::NCHW);
    assert_eq!(cnn.input_dims(), [1, 3, 128, 256]);
    let cnn = Cnn::new(CnnInputShape::NHWC, 1, &[1, 128, 256, 3]).unwrap();
    assert_eq!(cnn.input_resolution(), Resolution::new(256, 128));
    assert_eq!(cnn.input_dims(), [1, 128, 256, 3]);
}

#[test]
fn cnn_rejects_other_networks() {
    let count = Cnn::new(CnnInputShape::NCHW, 2, &[1, 3, 128, 128]).unwrap_err();
    assert_eq!(count, CnnError::InputCount { found: 2 });
    let count = Cnn::new(CnnInputShape::NCHW, 0, &[]).unwrap_err();
    assert_eq!(count, CnnError::InputCount { found: 0 });
    for shape in [
        &[1usize, 128, 128, 3][..],
        &[2, 3, 128, 128],
        &[1, 3, 128],
        &[1, 3, 128, 128, 1],
        &[],
    ] {
        assert_eq!(
            Cnn::new(CnnInputShape::NCHW, 1, shape).unwrap_err(),
            CnnError::InputShape
        );
    }
    assert_eq!(
        Cnn::new(CnnInputShape::NHWC, 1, &[1, 3, 128, 128]).unwrap_err(),
        CnnError::InputShape
    );
    if usize::BITS > 32 {
        let too_wide = u32::MAX as usize + 1;
        assert_eq!(
            Cnn::new(CnnInputShape::NCHW, 1, &[1, 3, 2, too_wide]).unwrap_err(),
            CnnError::InputSize
        );
        assert_eq!(
            Cnn::new(CnnInputShape::NHWC, 1, &[1, too_wide, 2, 3]).unwrap_err(),
            CnnError::InputSize
        );
    }
}

#[test]
fn input_tensor_in_both_orders() {
    let mut image = Image::new(2, 2);
    image.set(0, 0, Color::from_rgb8(0, 0, 0));
    image.set(1, 0, Color::from_rgb8(255, 0, 0));
    image.set(0, 1, Color::from_rgb8(0, 255, 0));
    image.set(1, 1, Color::from_rgb8(0, 0, 255));
    let mapper = linear_color_mapper(-1.0, 1.0);

    let nchw = Cnn::new(CnnInputShape::NCHW, 1, &[1, 3, 2, 2]).unwrap();
    let tensor = nchw.input_tensor(&image.as_view(), &mapper);
    assert_eq!(tensor.shape(), &[1, 3, 2, 2]);
    assert_eq!(tensor.index([0, 0, 0]).as_slice(), &[-1.0, 1.0]);
    assert_eq!(tensor.index([0, 0, 1]).as_slice(), &[-1.0, -1.0]);
    assert_eq!(tensor.index([0, 1, 1]).as_slice(), &[1.0, -1.0]);
    assert_eq!(tensor.index([0, 2, 1]).as_slice(), &[-1.0, 1.0]);

    let nhwc = Cnn::new(CnnInputShape::NHWC, 1, &[1, 2, 2, 3]).unwrap();
    let tensor = nhwc.input_tensor(&image.as_view(), &mapper);
    assert_eq!(tensor.shape(), &[1, 2, 2, 3]);
    assert_eq!(tensor.index([0, 0, 0]).as_slice(), &[-1.0, -1.0, -1.0]);
    assert_eq!(tensor.index([0, 0, 1]).as_slice(), &[1.0, -1.0, -1.0]);
    assert_eq!(tensor.index([0, 1, 0]).as_slice(), &[-1.0, 1.0, -1.0]);
    assert_eq!(tensor.index([0, 1, 1]).as_slice(), &[-1.0, -1.0, 1.0]);
}

#[test]
fn input_tensor_stretches_other_sizes() {
    let mut image = Image::new(4, 1);
    for x in 0..4 {
        image.set(x, 0, Color::from_rgb8(x as u8, 0, 0));
    }
    let cnn = Cnn::new(CnnInputShape::NCHW, 1, &[1, 3, 2, 2]).unwrap();
    let tensor = cnn.input_tensor(&image.as_view(), &|color: Color| {
        [color.r() as u32, color.g() as u32, color.b() as u32]
    });
    assert_eq!(tensor.index([0, 0, 0]).as_slice(), &[1, 3]);
    assert_eq!(tensor.index([0, 0, 1]).as_slice(), &[1, 3]);
    let part = image.view(&Rect::from_top_left(2, 0, 2, 1));
    let tensor = cnn.input_tensor(&part, &|color: Color| [color.r(), 0, 0]);
    assert_eq!(tensor.index([0, 0, 0]).as_slice(), &[2, 3]);
}

#[test]
fn fit_resizes_only_other_sizes() {
    let cnn = Cnn::new(CnnInputShape::NCHW, 1, &[1, 3, 4, 4]).unwrap();
    let same = Image::new(4, 4);
    assert!(cnn.fit(&same.as_view()).is_none());
    let mut other = Image::new(8, 4);
    other.clear(Color::white());
    let fitted = cnn.fit(&other.as_view()).unwrap();
    assert_eq!(fitted.resolution(), Resolution::new(4, 4));
    assert_eq!(fitted.get(0, 0), Color::transparent());
    assert_eq!(fitted.get(0, 1), Color::white());
    assert_eq!(fitted.get(3, 2), Color::white());
    assert_eq!(fitted.get(3, 3), Color::transparent());
}

#[test]
fn color_mapper_endpoints() {
    let mapper = linear_color_mapper(-1.0, 1.0);
    assert_eq!(mapper(Color::black()), [-1.0, -1.0, -1.0]);
    assert_eq!(mapper(Color::white()), [1.0, 1.0, 1.0]);
    let gray = mapper(Color::from_rgb8(128, 128, 128));
    for value in gray {
        assert!((value - 0.00392).abs() < 0.0001);
    }
}

#[test]
fn loader_settings() {
    let loader = Loader::new(vec![1, 2, 3]);
    assert!(!loader.gpu_enabled());
    assert_eq!(loader.backend(), Backend::Cpu);
    let loader = loader.with_gpu_support();
    assert!(loader.gpu_enabled());
    assert_eq!(loader.backend(), Backend::Gpu);
    assert_eq!(loader.model_data(), &[1, 2, 3]);
}

#[test]
fn node_info() {
    let shape = [1usize, 3, 128, 128];
    let input = InputInfo::new(&shape, "input");
    assert_eq!(input.shape(), &shape);
    assert_eq!(input.name(), "input");
    let output = OutputInfo::new(&shape[..2], "regressors");
    assert_eq!(output.shape(), &[1, 3]);
    assert_eq!(output.name(), "regressors");
}

#[test]
fn inputs_and_outputs() {
    let mut inputs = Inputs::from_tensor(Tensor::from([1.0f32, 2.0]));
    assert_eq!(inputs.len(), 1);
    inputs.push(Tensor::from_scalar(3.0));
    assert_eq!(inputs.len(), 2);
    assert_eq!(inputs.iter()[1].as_singular(), 3.0);
    let inputs = Inputs::from_tensors(vec![Tensor::from([7u8])]);
    assert_eq!(inputs.iter()[0].as_slice(), &[7]);

    let outputs = Outputs::new(vec![Tensor::from([1u8, 2]), Tensor::from([3u8])]);
    assert_eq!(outputs.len(), 2);
    assert_eq!(outputs.index(1).as_slice(), &[3]);
    assert_eq!(outputs.iter().len(), 2);
}
