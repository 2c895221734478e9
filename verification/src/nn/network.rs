//! What surrounds a neural network: the loader's settings, the description
//! of its input and output nodes, and the tensors that go in and come out.

use crate::image::codec::same_bytes;
use crate::nn::tensor::Tensor;
use vstd::prelude::*;

verus! {

/// Where a network runs.
#[derive(PartialEq, Eq, Structural, Clone, Copy, Debug)]
pub enum Backend {
    /// On the CPU.
    Cpu,
    /// On the GPU.
    Gpu,
}

/// Neural network loader: the bytes of a model and how to load them.
pub struct Loader {
    model_data: Vec<u8>,
    enable_gpu: bool,
}

impl Loader {
    /// The bytes of the model.
    pub closed spec fn bytes(&self) -> Seq<u8> {
        self.model_data@
    }

    /// GPU support was asked for.
    pub closed spec fn spec_gpu_enabled(&self) -> bool {
        self.enable_gpu
    }

    /// Tells whether a file with the given extension holds a model that
    /// can be loaded: the extension, given as its bytes without the dot,
    /// must be `onnx`.
    pub fn accepts_extension(extension: &[u8]) -> (accepted: bool)
        ensures
            accepted == (extension@ == seq![0x6fu8, 0x6eu8, 0x6eu8, 0x78u8]),
    {
        let onnx: [u8; 4] = [0x6f, 0x6e, 0x6e, 0x78];
        assert(onnx@ =~= seq![0x6fu8, 0x6eu8, 0x6eu8, 0x78u8]);
        same_bytes(extension, onnx.as_slice())
    }

    /// A loader for an in-memory model, without GPU support.
    pub fn new(model_data: Vec<u8>) -> (loader: Loader)
        ensures
            loader.bytes() == model_data@,
            !loader.spec_gpu_enabled(),
    {
        Loader { model_data, enable_gpu: false }
    }

    /// Instructs the loader to enable GPU support for this network.
    ///
    /// Loading then fails where the GPU backend does not support the
    /// network.
    pub fn with_gpu_support(self) -> (loader: Loader)
        ensures
            loader.bytes() == self.bytes(),
            loader.spec_gpu_enabled(),
    {
        Loader { model_data: self.model_data, enable_gpu: true }
    }

    /// Tells whether GPU support was asked for.
    #[verifier::when_used_as_spec(spec_gpu_enabled)]
    pub fn gpu_enabled(&self) -> (enabled: bool)
        ensures
            enabled == self.spec_gpu_enabled(),
    {
        self.enable_gpu
    }

    /// Returns the backend that inference is routed to: the GPU where its
    /// support was asked for, the CPU otherwise.
    pub fn backend(&self) -> (backend: Backend)
        ensures
            backend == (if self.spec_gpu_enabled() {
                Backend::Gpu
            } else {
                Backend::Cpu
            }),
    {
        if self.enable_gpu {
            Backend::Gpu
        } else {
            Backend::Cpu
        }
    }

    /// Returns the bytes of the model.
    pub fn model_data(&self) -> (data: &[u8])
        ensures
            data@ == self.bytes(),
    {
        self.model_data.as_slice()
    }
}

/// Information about a neural network input node.
#[derive(Debug)]
pub struct InputInfo<'a> {
    shape: &'a [usize],
    name: &'a str,
}

impl<'a> InputInfo<'a> {
    /// The tensor shape of the node.
    pub closed spec fn dims(&self) -> Seq<usize> {
        self.shape@
    }

    /// The name of the node.
    pub closed spec fn label(&self) -> Seq<char> {
        self.name@
    }

    /// Describes an input node.
    pub fn new(shape: &'a [usize], name: &'a str) -> (info: InputInfo<'a>)
        ensures
            info.dims() == shape@,
            info.label() == name@,
    {
        InputInfo { shape, name }
    }

    /// Returns the tensor shape for this input.
    pub fn shape(&self) -> (shape: &[usize])
        ensures
            shape@ == self.dims(),
    {
        self.shape
    }

    /// Returns the name of this input.
    pub fn name(&self) -> (name: &str)
        ensures
            name@ == self.label(),
    {
        self.name
    }
}

/// Information about a neural network output node.
#[derive(Debug)]
pub struct OutputInfo<'a> {
    shape: &'a [usize],
    name: &'a str,
}

impl<'a> OutputInfo<'a> {
    /// The tensor shape of the node.
    pub closed spec fn dims(&self) -> Seq<usize> {
        self.shape@
    }

    /// The name of the node.
    pub closed spec fn label(&self) -> Seq<char> {
        self.name@
    }

    /// Describes an output node.
    pub fn new(shape: &'a [usize], name: &'a str) -> (info: OutputInfo<'a>)
        ensures
            info.dims() == shape@,
            info.label() == name@,
    {
        OutputInfo { shape, name }
    }

    /// Returns the tensor shape for this output.
    pub fn shape(&self) -> (shape: &[usize])
        ensures
            shape@ == self.dims(),
    {
        self.shape
    }

    /// Returns the name of this output.
    pub fn name(&self) -> (name: &str)
        ensures
            name@ == self.label(),
    {
        self.name
    }
}

/// The result of a neural network inference pass: one tensor for each of the
/// network's output nodes, in their order.
pub struct Outputs<T> {
    inner: Vec<Tensor<T>>,
}

impl<T> Outputs<T> {
    /// The tensors, in the order of the output nodes.
    pub closed spec fn view(&self) -> Seq<Tensor<T>> {
        self.inner@
    }

    /// The outputs made of the given tensors.
    pub fn new(tensors: Vec<Tensor<T>>) -> (outputs: Outputs<T>)
        ensures
            outputs@ == tensors@,
    {
        Outputs { inner: tensors }
    }

    /// Returns the number of tensors in this inference output.
    pub fn len(&self) -> (len: usize)
        ensures
            len == self@.len(),
    {
        self.inner.len()
    }

    /// Returns the output tensors, in order.
    pub fn iter(&self) -> (tensors: &[Tensor<T>])
        ensures
            tensors@ == self@,
    {
        self.inner.as_slice()
    }

    /// Returns the tensor of the output node at `index`.
    pub fn index(&self, index: usize) -> (tensor: &Tensor<T>)
        requires
            index < self@.len(),
        ensures
            *tensor == self@[index as int],
    {
        &self.inner[index]
    }
}

/// List of input tensors for neural network inference.
pub struct Inputs<T> {
    inner: Vec<Tensor<T>>,
}

impl<T> Inputs<T> {
    /// The tensors, in the order of the input nodes.
    pub closed spec fn view(&self) -> Seq<Tensor<T>> {
        self.inner@
    }

    /// The inputs made of one tensor.
    pub fn from_tensor(tensor: Tensor<T>) -> (inputs: Inputs<T>)
        ensures
            inputs@ == seq![tensor],
    {
        let mut inner: Vec<Tensor<T>> = Vec::new();
        inner.push(tensor);
        assert(inner@ =~= seq![tensor]);
        Inputs { inner }
    }

    /// The inputs made of the given tensors.
    pub fn from_tensors(tensors: Vec<Tensor<T>>) -> (inputs: Inputs<T>)
        ensures
            inputs@ == tensors@,
    {
        Inputs { inner: tensors }
    }

    /// Adds a tensor behind those that are there.
    pub fn push(&mut self, tensor: Tensor<T>)
        ensures
            final(self)@ == old(self)@.push(tensor),
    {
        self.inner.push(tensor);
    }

    /// Returns the number of input tensors stored in `self`.
    pub fn len(&self) -> (len: usize)
        ensures
            len == self@.len(),
    {
        self.inner.len()
    }

    /// Returns the input tensors, in order.
    pub fn iter(&self) -> (tensors: &[Tensor<T>])
        ensures
            tensors@ == self@,
    {
        self.inner.as_slice()
    }
}

} // verus!
