//! Video conversion backends: which are available, how they are named, and
//! which one a pipeline ends up using.

use vstd::prelude::*;

use crate::adapters::{bytes_contain, occurs_in};

verus! {

/// An NVIDIA GPU usable through CUDA.
#[derive(Debug, PartialEq, Eq)]
pub struct CudaDevice {
    pub index: i32,
    pub name: String,
}

/// A GPU usable through OpenGL color conversion.
#[derive(Debug, PartialEq, Eq)]
pub struct VaapiDevice {
    pub path: String,
    pub name: String,
}

/// Available GPU backends for video processing.
#[derive(Debug, PartialEq, Eq)]
pub enum GpuBackend {
    Cuda(CudaDevice),
    Vaapi(VaapiDevice),
    Cpu,
}

impl Clone for CudaDevice {
    fn clone(&self) -> (out: Self)
        ensures
            out == *self,
    {
        CudaDevice { index: self.index, name: self.name.clone() }
    }
}

impl Clone for VaapiDevice {
    fn clone(&self) -> (out: Self)
        ensures
            out == *self,
    {
        VaapiDevice { path: self.path.clone(), name: self.name.clone() }
    }
}

impl Clone for GpuBackend {
    fn clone(&self) -> (out: Self)
        ensures
            out == *self,
    {
        match self {
            GpuBackend::Cuda(d) => GpuBackend::Cuda(d.clone()),
            GpuBackend::Vaapi(d) => GpuBackend::Vaapi(d.clone()),
            GpuBackend::Cpu => GpuBackend::Cpu,
        }
    }
}

/// The name a backend is shown under.
pub open spec fn backend_label_spec(b: GpuBackend) -> Seq<char> {
    match b {
        GpuBackend::Cuda(dev) => dev.name@,
        GpuBackend::Vaapi(dev) => dev.name@,
        GpuBackend::Cpu => "CPU (Software)"@,
    }
}

impl GpuBackend {
    /// The name the backend is shown under: the device's name, or
    /// "CPU (Software)".
    pub fn label(&self) -> (s: String)
        ensures
            s@ == backend_label_spec(*self),
    {
        match self {
            GpuBackend::Cuda(dev) => dev.name.clone(),
            GpuBackend::Vaapi(dev) => dev.name.clone(),
            GpuBackend::Cpu => String::from_str("CPU (Software)"),
        }
    }
}

/// All backends found: the CUDA device if any, then the OpenGL devices, and
/// always the CPU last.
pub fn assemble_backends(cuda: Option<CudaDevice>, opengl: Option<Vec<VaapiDevice>>) -> (out: Vec<GpuBackend>)
    ensures
        ({
            let head: Seq<GpuBackend> = match cuda {
                Some(c) => seq![GpuBackend::Cuda(c)],
                None => Seq::empty(),
            };
            let mid: Seq<GpuBackend> = match opengl {
                Some(v) => Seq::new(v@.len(), |i: int| GpuBackend::Vaapi(v@[i])),
                None => Seq::empty(),
            };
            out@ == head + mid + seq![GpuBackend::Cpu]
        }),
{
    let mut backends: Vec<GpuBackend> = Vec::new();
    let ghost head: Seq<GpuBackend> = if cuda is Some { seq![GpuBackend::Cuda(cuda->0)] } else { Seq::empty() };
    match cuda {
        Some(c) => backends.push(GpuBackend::Cuda(c)),
        None => {},
    }
    assert(backends@ =~= head);
    match opengl {
        Some(devices) => {
            let mut i: usize = 0;
            while i < devices.len()
                invariant
                    i <= devices@.len(),
                    backends@ == head + Seq::new(i as nat, |k: int| GpuBackend::Vaapi(devices@[k])),
                decreases devices@.len() - i,
            {
                backends.push(GpuBackend::Vaapi(devices[i].clone()));
                i = i + 1;
                assert(backends@ =~= head + Seq::new(i as nat, |k: int| GpuBackend::Vaapi(devices@[k])));
            }
        },
        None => {
            assert(backends@ =~= head + Seq::<GpuBackend>::empty());
        },
    }
    backends.push(GpuBackend::Cpu);
    backends
}

/// The conversion pipeline a backend asks for.
#[derive(Debug, Clone, Copy, PartialEq, Eq, Structural)]
pub enum PipelineKind {
    /// CUDA upload/convert/download on the given device.
    Cuda(i32),
    /// OpenGL upload/convert/download.
    OpenGl,
    /// Software conversion.
    Cpu,
}

/// The pipeline to try first for a requested backend.
pub fn first_pipeline(requested: &GpuBackend) -> (out: PipelineKind)
    ensures
        out == match *requested {
            GpuBackend::Cuda(dev) => PipelineKind::Cuda(dev.index),
            GpuBackend::Vaapi(_) => PipelineKind::OpenGl,
            GpuBackend::Cpu => PipelineKind::Cpu,
        },
{
    match requested {
        GpuBackend::Cuda(dev) => PipelineKind::Cuda(dev.index),
        GpuBackend::Vaapi(_) => PipelineKind::OpenGl,
        GpuBackend::Cpu => PipelineKind::Cpu,
    }
}

/// The backend a converter ends up with: the requested accelerated one when
/// its pipeline was built, else the CPU (to which a failed accelerated
/// pipeline falls back).
pub fn resolved_backend(requested: &GpuBackend, accelerated_built: bool) -> (out: GpuBackend)
    ensures
        out == match *requested {
            GpuBackend::Cpu => GpuBackend::Cpu,
            other => if accelerated_built { other } else { GpuBackend::Cpu },
        },
{
    match requested {
        GpuBackend::Cpu => GpuBackend::Cpu,
        other => if accelerated_built { other.clone() } else { GpuBackend::Cpu },
    }
}

/// Errors of the video converter.
#[derive(Debug, Clone, PartialEq, Eq)]
pub enum GstError {
    InitError(String),
    PipelineError(String),
    ConversionError(String),
}

impl GstError {
    /// Human-readable description of the error.
    pub fn message(&self) -> (s: String)
        ensures
            s@ == match *self {
                GstError::InitError(msg) => "GStreamer init error: "@ + msg@,
                GstError::PipelineError(msg) => "Pipeline error: "@ + msg@,
                GstError::ConversionError(msg) => "Conversion error: "@ + msg@,
            },
    {
        match self {
            GstError::InitError(msg) => {
                let mut s = String::from_str("GStreamer init error: ");
                s.append(msg.as_str());
                s
            },
            GstError::PipelineError(msg) => {
                let mut s = String::from_str("Pipeline error: ");
                s.append(msg.as_str());
                s
            },
            GstError::ConversionError(msg) => {
                let mut s = String::from_str("Conversion error: ");
                s.append(msg.as_str());
                s
            },
        }
    }
}

/// The bytes of "card".
pub open spec fn card_bytes() -> Seq<u8> {
    seq![99u8, 97u8, 114u8, 100u8]
}

/// The bytes of "render".
pub open spec fn render_bytes() -> Seq<u8> {
    seq![114u8, 101u8, 110u8, 100u8, 101u8, 114u8]
}

/// Whether a `/sys/class/drm` entry names a card (not a render node): its
/// name starts with "card" and does not contain "render".
pub fn is_drm_card_entry(name: &str) -> (b: bool)
    ensures
        ({
            let bytes = vstd::utf8::encode_utf8(name@);
            b == (bytes.len() >= 4 && bytes.subrange(0, 4) == card_bytes() && !occurs_in(bytes, render_bytes()))
        }),
{
    let bytes = name.as_bytes();
    let card: [u8; 4] = [99u8, 97u8, 114u8, 100u8];
    let render: [u8; 6] = [114u8, 101u8, 110u8, 100u8, 101u8, 114u8];
    if bytes.len() < 4 {
        return false;
    }
    let starts = bytes[0] == card[0] && bytes[1] == card[1] && bytes[2] == card[2] && bytes[3] == card[3];
    proof {
        if starts {
            assert(bytes@.subrange(0, 4) =~= card_bytes());
        } else {
            assert(bytes@.subrange(0, 4) != card_bytes()) by {
                if bytes@.subrange(0, 4) == card_bytes() {
                    assert(bytes@.subrange(0, 4)[0] == card_bytes()[0]);
                    assert(bytes@.subrange(0, 4)[1] == card_bytes()[1]);
                    assert(bytes@.subrange(0, 4)[2] == card_bytes()[2]);
                    assert(bytes@.subrange(0, 4)[3] == card_bytes()[3]);
                }
            }
        }
    }
    if !starts {
        return false;
    }
    assert(render@ =~= render_bytes());
    !bytes_contain(bytes, render.as_slice())
}

} // verus!
