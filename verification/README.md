# multi_read

Reads a file in parallel and hands its chunks to a function, in a fixed amount of memory.

The file is cut into one region per producer, and each region into chunks. Producers read
chunks into buffers and send them to the consumers in turn. Consumers run the function on each
chunk and return the buffer to its producer. After its last chunk a producer signals its end to
every consumer; a consumer stops when it has the end signals of all producers, or when its
channel is closed.

`src/` is the library, verified with Verus:

- `layout`, `arith`: how the file is cut
- `producer`, `consumer`, `message`: what a producer and a consumer do with what they receive
- `load`: filling a buffer with as many reads as it takes
- `launch`, `run`, `gather`: setting a run up, and adding up what it brings back
- `system`: a whole run, in every order in which its threads can take their steps
- `upkeep`, `streams`, `sum`: what every step of a run keeps
- `steps`: what a producer and a consumer do is what the steps of `system` say
- `laws`, `progress`, `capacity`: what holds of every run: memory stays bounded, buffers never
  grow, and the run ends; and, with at least one buffer per producer, all bytes are consumed and
  every chunk arrives once

`app/` is the program: arguments, threads, channels and the file.
