# srun_login

A command-line client for the SRUN campus-network portal, with its protocol
logic verified by Verus.

- `src/` is the verified library:
  - `xencode`: the byte/word conversions and the portal's XXTEA-like word
    encryption, stated as a round-by-round specification;
  - `base64`: padded base64 over the portal's shuffled alphabet;
  - `hex`: lowercase hexadecimal text;
  - `hmac`: HMAC-MD5 of the password keyed with the challenge;
  - `format`: the login request's `info` and `chksum` fields;
  - `response`: reading the portal's `nd_portal(...)` JSONP replies;
  - `state`: the two login stages and the requests they make;
  - `portal`: the time-stamped addresses and queries of the client's requests;
  - `config`: the rules for configuration entries.
- `app/` is the program around it: argument parsing, the password prompt,
  HTTP requests and the configuration file.
- `tests/` runs the library on concrete inputs with independently computed
  expected values.
