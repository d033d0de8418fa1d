# yuvdiff

Shows two raw YUV 4:2:0 files of the same frame size side by side with their
difference, one frame at a time, with a zoomed view of a selected macroblock.

- `src/` is the verified library:
  - `yuv`: frames, their padded planes, loading from bytes, absolute differences and
    saturating scaling;
  - `reader`: a reader's position in a file of frames (frame number and offset) and
    how stepping, jumping and going back move it;
  - `ui`: display settings, command-line words, key and mouse events, and how a run
    of requests changes the settings;
  - `layout`: window size, grid lines, and which bytes of which planes the frame view
    and the zoomed view show.
- `app/` is the program: command-line parsing, the files, and the SDL window.
- `tests/` runs the library on concrete frames and files.
