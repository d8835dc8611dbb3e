//! Error types of capture, import and recording, each with its message.

use vstd::prelude::*;

verus! {

/// Error returned when importing a GPU frame: carries the message of the
/// platform error it wraps.
#[derive(Debug, Clone, PartialEq, Eq)]
pub struct ImportError {
    message: String,
}

impl ImportError {
    /// The wrapped error's message.
    pub closed spec fn text(self) -> Seq<char> {
        self.message@
    }

    /// Wrap a platform error, given by its message.
    pub fn wrap(message: String) -> (out: Self)
        ensures
            out.text() == message@,
    {
        ImportError { message }
    }

    /// The wrapped error's message, unchanged.
    pub fn message(&self) -> (s: String)
        ensures
            s@ == self.text(),
    {
        self.message.clone()
    }
}

/// Error produced during the recording session lifecycle.
#[derive(Debug, Clone, PartialEq, Eq)]
pub enum RecordingError {
    /// The capture stream ended with an error (e.g. capture thread failed).
    StreamFailed(String),
    /// The capture thread panicked.
    ThreadPanicked,
}

impl RecordingError {
    /// Human-readable description of the error.
    pub fn message(&self) -> (s: String)
        ensures
            s@ == match *self {
                RecordingError::StreamFailed(msg) => "Capture stream error: "@ + msg@,
                RecordingError::ThreadPanicked => "Capture thread panicked"@,
            },
    {
        match self {
            RecordingError::StreamFailed(msg) => {
                let mut s = String::from_str("Capture stream error: ");
                s.append(msg.as_str());
                s
            },
            RecordingError::ThreadPanicked => String::from_str("Capture thread panicked"),
        }
    }
}

/// Error importing a macOS IOSurface as a Metal texture.
#[derive(Debug, Clone, Copy, PartialEq, Eq, Structural)]
pub enum MetalImportError {
    MetalHalNotAvailable,
    TextureCreationFailed,
}

impl MetalImportError {
    /// Human-readable description of the error.
    pub fn message(&self) -> (s: String)
        ensures
            s@ == match *self {
                MetalImportError::MetalHalNotAvailable => "Metal HAL backend not available"@,
                MetalImportError::TextureCreationFailed => "Failed to create Metal texture from IOSurface"@,
            },
    {
        match self {
            MetalImportError::MetalHalNotAvailable => String::from_str("Metal HAL backend not available"),
            MetalImportError::TextureCreationFailed => String::from_str("Failed to create Metal texture from IOSurface"),
        }
    }
}

/// Error importing a shared D3D texture through DX12; the platform error is
/// carried by its message.
#[derive(Debug, Clone, PartialEq, Eq)]
pub enum Dx12ImportError {
    Dx12HalNotAvailable,
    OpenSharedHandleFailed(String),
}

impl Dx12ImportError {
    /// Human-readable description of the error.
    pub fn message(&self) -> (s: String)
        ensures
            s@ == match *self {
                Dx12ImportError::Dx12HalNotAvailable => "DX12 HAL backend not available"@,
                Dx12ImportError::OpenSharedHandleFailed(e) => "OpenSharedHandle failed: "@ + e@,
            },
    {
        match self {
            Dx12ImportError::Dx12HalNotAvailable => String::from_str("DX12 HAL backend not available"),
            Dx12ImportError::OpenSharedHandleFailed(e) => {
                let mut s = String::from_str("OpenSharedHandle failed: ");
                s.append(e.as_str());
                s
            },
        }
    }
}

/// Error creating or reading a shared D3D11 texture; the platform error is
/// carried by its message.
#[derive(Debug, Clone, PartialEq, Eq)]
pub enum SharedTextureError {
    Windows(String),
}

impl SharedTextureError {
    /// Human-readable description of the error.
    pub fn message(&self) -> (s: String)
        ensures
            s@ == match *self {
                SharedTextureError::Windows(e) => "Windows error: "@ + e@,
            },
    {
        match self {
            SharedTextureError::Windows(e) => {
                let mut s = String::from_str("Windows error: ");
                s.append(e.as_str());
                s
            },
        }
    }
}

} // verus!
