# hls_transmux

Decides how an HLS playlist becomes an MP4 file without decoding or encoding
anything, with every decision proved against its contract by Verus.

The library does no I/O. It takes plain values (a parsed playlist, demuxed
packets, the head of an HTTP response, what came of a write) and says what to do
next. The program around it reads, writes and waits.

## Layout

`src/` is the verified library.

| Module | What it decides |
| --- | --- |
| `location`, `segment` | which file or URL a URI in a playlist refers to, and what is read for a segment |
| `range` | slices of local files, `Range` requests and their responses |
| `options` | which variant of a master playlist is used |
| `prefetch` | which segments are fetched ahead of the reader, with a bound on how many |
| `prefetch_history` | nothing: it proves what holds of a prefetch whatever happens to it |
| `samples`, `tracks` | how packets become samples, on a timeline that starts at zero, and which tracks there are |
| `collect` | the two tracks and the report of a standard MP4 |
| `fragments`, `fragment_run` | the steps, the random access index and the report of a fragmented MP4 |
| `fidelity` | whether the fragments hold the samples that a standard MP4 of the same segments has |
| `fragment_course` | nothing: it proves what a whole run of those steps comes to |
| `agreement` | nothing: it proves that both ways to a standard MP4 lay out the same tracks |
| `boxes` | where the init part of a fragmented MP4 ends |
| `pipeline` | the steps from a media playlist to the output file |
| `types`, `playlist`, `error`, `text` | plain values and small operations on them |
| `outside` | calls into the `url` crate and `std::path`, whose contracts are believed |

`tests/` runs the library. `app/` is ordinary Rust around it: files, HTTP and
background tasks with `tokio` and `reqwest`. The media formats themselves (playlist
syntax, MPEG-TS, ISOBMFF, codec parameter sets) come in through the
`MediaFormats` trait of `app/`.
