//! Layout logic for printing photos on an A4 sheet: resize handles, the
//! photo stack with its selection and linked PDF, collage templates and cell
//! assignment, image density read from PNG and JPEG headers, and the pixel
//! work done before a photo is sent to the printer.
pub mod collage;
pub mod density;
pub mod files;
pub mod handle;
pub mod page;
pub mod pixels;
pub mod sheet;
