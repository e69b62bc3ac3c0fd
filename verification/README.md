# mfl_audit

An audit tool for raw magnetic flux leakage (MFL) pipeline inspection data.

- `src/` is the verified library, checked by Verus:
  - `mfl_format`: the `.mfl` file and frame headers, and sample decoding
    (with the proof that decoding inverts two's complement encoding);
  - `stream_parser`: an opened stream, random access to its frames and the
    per-channel decoding of a frame's samples;
  - `ringbuf`: a bounded FIFO queue with power-of-two capacity and per-slot
    sequence numbers, proved to behave as a queue;
  - `hough`: defect regions, vote casting and the peak search of the Hough
    accumulator (local maxima in report order);
  - `defect_extract`: the window cut out around a defect region;
  - `depth_inversion`, `ascii_plot`: severity grades and the integer rules of
    the corrosion map (fading, painting, counting).
- `app/` is the command-line program around the library: file mapping,
  floating-point signal processing, the gradient and Hough voting geometry,
  the dipole forward model and depth inversion, and the text reports.
- `tests/` exercises the library.
