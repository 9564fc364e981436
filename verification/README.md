# bdwgc_box

Strings, C strings, slices and boxes kept in memory managed by the
Boehm-Demers-Weiser garbage collector, usable only by threads registered with it.

- `src/` is the verified library. It decides everything that does not need the
  collector itself: how string buffers grow (`capacity`), UTF-8 encoding
  (`encoding`), the contents of strings and C strings and where a NUL is refused
  (`string`, `cstring`), the allocation request, the capacity reached and the element order of
  slices (`vec`), boxed values (`boxed`), and when a thread counts as registered or has left the
  collector (`token`). Memory is modelled by owned vectors and boxes.
- `app/` calls the collector: it registers threads, keeps the per-thread
  registration record, allocates collected memory of the sizes `src/` computes for slices and
  C-string buffers,
  copies the verified contents into it, and registers finalizers. It also holds
  the C entry points and the header generator built with `safer_ffi`.
- `tests/` exercise the verified library.
