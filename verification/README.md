# mobcam

Use an iPhone or iPad running [Moblin](https://github.com/eerimoq/moblin) as a
low latency camera and microphone on a Linux computer, over a USB cable: the
video is written to a v4l2loopback device and the audio played into a
PulseAudio or PipeWire sink, or an ALSA loopback device.

This crate is the logic of that, verified with Verus: the functions in
`src/` carry contracts that Verus proves they meet. The exceptions are the
few functions marked `#[verifier::external_body]`, each a thin call into the
standard library or the `plist` crate, and the one `assume_specification`,
for `copy_from_slice`: their contracts are believed, not proved, and their
doc comments say what is claimed of the call.

| Module | What it holds |
| --- | --- |
| `json` | The device hello: the string members of a JSON object. |
| `usbmux` | The framing of messages to usbmuxd, the property lists they carry, what its replies say, and the steps of filling a buffer from its socket. |
| `clock` | Presentation times turned into host times, keeping the spacing the phone gave its frames. |
| `convert` | Decoded pictures laid out the way a loopback camera takes them, I420 or NV12. |
| `camera` | What becomes of each decoded picture, what is worth logging about it, and the decisions of running the camera: which device, which format, and what follows a session. |
| `audio` | What audio is played as, interleaving decoded samples, and the playing of it. |
| `alsa` | The loopback cards in the kernel's list of sound cards, and handing samples to a device. |
| `ffmpeg` | What FFmpeg's calls answer, and whether the libraries loaded fit the ones built against. |
| `decoder` | When a decoder is opened anew, which decoders are tried and in what order, which frames it is handed, what its answers mean, and how a hardware decoder's frames are fetched. |
| `obs` | What the OBS source makes of each decoded frame. |
| `session` | Whether a session reads on after each message from the device, and how big a message it takes. |
| `v4l2`, `frame`, `options`, `logging`, `text` | The types the rest is stated over, and small text handling. |

`app/` holds what talks to the outside world: the command line, the log, the
sockets to usbmuxd, the sound servers and the loopback camera, listing the
devices, and the sink that writes decoded frames out, asking the library what
to do with each. It holds no FFmpeg decoder and no session that reads the
stream, so nothing in it feeds that sink frames.

`tests/` runs the library on concrete values.
