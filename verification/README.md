# foto_a4

Verified core of a Windows program that prints photos and PDF pages on an A4
sheet. The library in `src/` holds the logic that can be stated over whole
numbers and bytes, each function with a contract proved by Verus:

- `handle`: the eight resize handles, the edges each one drags, its cursor,
  and which handle a press grabs.
- `sheet`: the photos in drawing order with the selection, the crop mode and
  the PDF whose pages one photo shows (add, remove, raise, replace, page
  navigation, picking the photo under the pointer, what a double click and
  the Escape and Delete keys do).
- `collage`: the collage templates in whole units of the print area, proved
  to tile it, and the hand-out of cells to photos, proved one-to-one.
- `density`: the pixel density recorded in PNG `pHYs` chunks and JPEG JFIF
  segments, and whether it tells a print size.
- `pixels`: packing decoded rows, decoding the image a PDF page was
  rendered to, and preparing a photo for the printer (crop through the
  `image` crate, RGBA to BGRX).
- `files` and `page`: file-name decisions, decoder order and the trying of
  decoders in turn, the owner window of the print dialog, and the sheet size
  and orientation.

`app/` is the egui program around it: windows, drawing, file and printer
access, and the floating-point geometry in millimetres.
