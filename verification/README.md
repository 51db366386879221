# dasp_rs

Digital audio signal processing with a machine-checked core.

`src/` is a Verus library. It holds the integer side of the toolkit: the
interleaved sample container and its channel layout operations, framing
arithmetic for analysis windows and streams, padding and window placement,
the intervals kept by trimming and splitting, click tracks, stacking of
delayed feature copies, onset spacing, the predecessor windows and back-links
of the beat tracker, warping-path and Viterbi backtracking, segmentation
partitions and boundaries, search ranges such as the autocorrelation lags,
and the parameter checks with their exact error messages. Decisions that
compare `f32` values (loudness thresholds, best scores, finiteness) are made
in `app/` and handed to the library as positions, masks or flags. The
sample type is generic, so these contracts hold whatever a sample is. Laws
such as "interleaving the split channels gives the signal back" or
"non-overlapping stream blocks reassemble the signal" are proof functions.

`app/` is the `f32` front end around it: decoding with symphonia, WAV
writing with hound, resampling with rubato, FFTs with rustfft, and the
floating-point arithmetic (gains, energies, spectra, distances, scores,
constant-Q kernels, phase recovery) that the library hands positions and
decisions to.

`tests/` exercise the library on concrete values.

Layout of `src/`:

| module         | contents                                                     |
|----------------|--------------------------------------------------------------|
| `audio`        | `AudioData`, channel split/interleave, stereo and multi mix  |
| `framing`      | frame counts and ranges, padding, STFT and Griffin-Lim layout, streaming |
| `time_domain`  | delay, reversal, crop, padding, crossings, lag and LPC checks|
| `effects`      | trim, split and remix intervals, zero-crossing search        |
| `ops`          | checks and error reports of sample-wise operations           |
| `generators`   | click tracks                                                 |
| `manipulation` | memory stacking, delta-feature and MFCC-inversion checks     |
| `rhythm`       | onset spacing, beat backtracking, beat bounds, onset bands   |
| `spectral`     | parameter checks and frame counts of spectral features       |
| `decompose`    | factorisation checks and the seeded initial values           |
| `sequence`     | DTW path, Viterbi backtracking, shape checks, local band     |
| `segment`      | partitions, boundaries, label changes, diagonal windows      |
| `harmonics`    | input checks of harmonic analysis                            |
| `scaling`      | weighting-curve names and request checks                     |
| `amplitude`    | normalisation checks with case-insensitive mode names        |
| `text`         | decimal rendering used in messages                           |
| `kinds`, `errors` | option enums and error types                              |
