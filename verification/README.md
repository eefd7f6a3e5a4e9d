# route_rs

The decision logic of a river-network router that routes flows with the
Muskingum-Cunge method, written in Verus and verified.

- `src/` is the verified library:
  - `text` reads and writes decimal numbers, joins paths and cuts text;
  - `kernel` names the routing kernels;
  - `args` reads the command line, `cli` turns it (with what the filesystem
    answers) into the run's configuration;
  - `config` holds the hydrofabric column names and the output formats;
  - `network` builds the river network from the flowpath table, with each
    catchment's upstream catchments;
  - `params` selects the channel-parameter rows of the routed catchments;
  - `simulation` reads the length and start of a run from an inflow table;
  - `lstm` holds the selection rules for the forcing file, the LSTM
    configuration directory and model weights, and flow padding.
- `app/` is the program around it. It prepares a run: it reads the command
  line and the filesystem, opens the hydrofabric database, builds the network,
  loads the channel parameters, reads the reference time and prints the run's
  schedule. It also holds the floating-point routing kernels. Stepping the
  network through time and writing the results are not part of this crate.
- `tests/` runs the library on concrete values.
