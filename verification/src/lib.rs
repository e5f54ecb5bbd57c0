//! Detection of stars in astronomical images.
//!
//! An image is thresholded at a cutoff that is searched for until enough
//! stars appear, the contours of the bright regions are traced on each colour
//! channel and turned into star centres, and the stars on which all three
//! channels agree are kept. Each star can then be described by the distances
//! to its nearest neighbours, in a way that does not depend on the scale of
//! the image.
//!
//! - [`buffer`]: the pixel buffers that the detector works on.
//! - [`single`]: single-precision values as bit patterns.
//! - [`binarize`]: the thresholder.
//! - [`image_extensions`]: the colour channels of a buffer as frames of
//!   bytes, and the foreground of a binarized buffer.
//! - [`centroid`]: contours, star centres and the consensus of the channels.
//! - [`star_count`]: the search for the cutoff.
//! - [`detect`]: the settings and the sequence of a whole detection.
//! - [`quad`]: the signatures of stars among their neighbours.
//! - [`error`]: what can go wrong.

pub mod binarize;
pub mod buffer;
pub mod centroid;
pub mod detect;
pub mod error;
pub mod image_extensions;
pub mod quad;
pub mod single;
pub mod star_count;

pub use detect::StarDetect;
pub use error::Error;
